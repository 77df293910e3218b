//! CSV export and import of a table: the text of an export file and where it
//! goes, and how the header of an imported file is matched to the table.
use vstd::prelude::*;
use crate::models::CellValue;
use crate::sql::{lemma_quoted_read_back, read_quoted};
use crate::numeric_value::lemma_decimal;
use crate::text::{
    all_digits, ascii_lower, char_is_whitespace, digits_value, chars_to_string, decimal, double_quotes, eq_ignore_ascii_case,
    is_whitespace, join, push_decimal, push_double_quoted, push_joined, push_quoted, push_str,
    is_blank, quoted, signed_decimal, str_chars, string_views, trim, trim_end, trim_start,
};

verus! {

// ---------------------------------------------------------------------------
// Export.
/// The text of a cell in an export file: empty for `NULL`, the decimal
/// representation of an integer, the text itself. A real number has no text
/// here (`None`): its shortest round-trip representation is made by the caller.
pub open spec fn spec_cell_text(cell: CellValue) -> Option<Seq<char>> {
    match cell {
        CellValue::Null => Some(seq![]),
        CellValue::Integer(i) => Some(signed_decimal(i as int)),
        CellValue::Real(_) => None,
        CellValue::Text(s) => Some(s@),
    }
}

/// Appends the decimal representation of a signed integer.
pub fn push_signed_decimal(out: &mut Vec<char>, n: i64)
    ensures
        final(out)@ == old(out)@ + signed_decimal(n as int),
{
    let ghost start = out@;
    if n < 0 {
        out.push('-');
        let m: u128 = (0i128 - (n as i128)) as u128;
        push_decimal(out, m);
    } else {
        push_decimal(out, n as u128);
    }
    assert(out@ =~= start + signed_decimal(n as int));
}

/// The text of a cell in an export file.
pub fn cell_text(cell: &CellValue) -> (res: Option<String>)
    ensures
        match res {
            Some(s) => spec_cell_text(*cell) == Some(s@),
            None => spec_cell_text(*cell) is None,
        },
{
    match cell {
        CellValue::Null => Some(String::new()),
        CellValue::Integer(i) => {
            let mut v: Vec<char> = Vec::new();
            push_signed_decimal(&mut v, *i);
            Some(chars_to_string(&v))
        },
        CellValue::Real(_) => None,
        CellValue::Text(s) => Some(s.clone()),
    }
}

/// One line of cells: each cell quoted, separated by commas, ended by a newline.
pub open spec fn csv_line(cells: Seq<Seq<char>>) -> Seq<char> {
    join(cells.map_values(|c: Seq<char>| quoted(c)), ","@) + "\n"@
}

/// The lines of all rows.
pub open spec fn csv_lines(rows: Seq<Seq<Seq<char>>>) -> Seq<char>
    decreases rows.len(),
{
    if rows.len() == 0 {
        seq![]
    } else {
        csv_lines(rows.drop_last()) + csv_line(rows.last())
    }
}

/// Reads a line of quoted fields separated by commas and ended by a newline,
/// as a CSV reader does: the fields and the number of characters read.
pub open spec fn read_csv_fields(s: Seq<char>) -> Option<(Seq<Seq<char>>, nat)>
    decreases s.len(),
{
    match read_quoted(s) {
        Some((f, k)) => if k < s.len() && s[k as int] == ',' {
            match read_csv_fields(s.skip(k + 1 as int)) {
                Some((fs, m)) => Some((seq![f] + fs, k + 1 + m)),
                None => None,
            }
        } else if k < s.len() && s[k as int] == '\n' {
            Some((seq![f], k + 1))
        } else {
            None
        },
        None => None,
    }
}

/// Reads one line of an export file: an empty line has no fields.
pub open spec fn read_csv_line(s: Seq<char>) -> Option<(Seq<Seq<char>>, nat)> {
    if s.len() > 0 && s[0] == '\n' {
        Some((seq![], 1))
    } else {
        read_csv_fields(s)
    }
}

proof fn lemma_join_front(items: Seq<Seq<char>>, sep: Seq<char>)
    requires
        items.len() >= 2,
    ensures
        join(items, sep) == items[0] + sep + join(items.drop_first(), sep),
    decreases items.len(),
{
    let init = items.drop_last();
    let tail = items.drop_first();
    assert(join(items, sep) == join(init, sep) + sep + items.last());
    if items.len() == 2 {
        assert(join(init, sep) == init[0]);
        assert(join(tail, sep) == tail[0]);
        assert(init[0] == items[0]);
        assert(tail[0] == items.last());
    } else {
        lemma_join_front(init, sep);
        assert(init.drop_first() =~= tail.drop_last());
        assert(tail.last() == items.last());
        assert(join(tail, sep) == join(tail.drop_last(), sep) + sep + tail.last());
        assert(init[0] == items[0]);
        assert(join(items, sep) =~= items[0] + sep + (join(tail.drop_last(), sep) + sep
            + tail.last()));
    }
}

proof fn lemma_csv_fields_read_back(cells: Seq<Seq<char>>, rest: Seq<char>)
    requires
        cells.len() >= 1,
    ensures
        read_csv_fields(csv_line(cells) + rest) == Some((cells, csv_line(cells).len())),
    decreases cells.len(),
{
    let q = cells.map_values(|c: Seq<char>| quoted(c));
    let s = csv_line(cells) + rest;
    let q0 = quoted(cells[0]);
    assert(q[0] == q0);
    if cells.len() == 1 {
        assert(join(q, ","@) == q0);
        reveal_strlit("\n");
        let after = "\n"@ + rest;
        assert(s =~= q0 + after);
        lemma_quoted_read_back(cells[0], after);
        assert(s[q0.len() as int] == '\n');
        assert(seq![cells[0]] =~= cells);
    } else {
        let tail = cells.drop_first();
        lemma_csv_fields_read_back(tail, rest);
        lemma_join_front(q, ","@);
        assert(q.drop_first() =~= tail.map_values(|c: Seq<char>| quoted(c)));
        reveal_strlit(",");
        let after = ","@ + csv_line(tail) + rest;
        assert(s =~= q0 + after);
        lemma_quoted_read_back(cells[0], after);
        assert(s[q0.len() as int] == ',');
        assert(s.skip(q0.len() + 1 as int) =~= csv_line(tail) + rest);
        assert(seq![cells[0]] + tail =~= cells);
        assert(csv_line(cells).len() == q0.len() + 1 + csv_line(tail).len());
    }
}

/// A line of an export file reads back as exactly its cells, whatever
/// the cells hold (quotes, commas, newlines), and the reading stops at the
/// end of the line.
pub proof fn lemma_csv_line_reads_back(cells: Seq<Seq<char>>, rest: Seq<char>)
    ensures
        read_csv_line(csv_line(cells) + rest) == Some((cells, csv_line(cells).len())),
{
    reveal_strlit("\n");
    if cells.len() == 0 {
        assert(join(cells.map_values(|c: Seq<char>| quoted(c)), ","@) =~= Seq::<char>::empty());
        assert(csv_line(cells) =~= seq!['\n']);
        assert(cells =~= Seq::<Seq<char>>::empty());
    } else {
        lemma_csv_fields_read_back(cells, rest);
        let q = cells.map_values(|c: Seq<char>| quoted(c));
        if cells.len() == 1 {
            assert(join(q, ","@) == q[0]);
        } else {
            lemma_join_front(q, ","@);
        }
        assert(csv_line(cells)[0] == '"');
    }
}

/// The views of the rows of an export.
pub open spec fn row_views(rows: Seq<Vec<String>>) -> Seq<Seq<Seq<char>>> {
    rows.map_values(|r: Vec<String>| string_views(r@))
}

/// Reads `n` lines of an export file, one after the other.
pub open spec fn read_csv_rows(s: Seq<char>, n: nat) -> Option<Seq<Seq<Seq<char>>>>
    decreases n,
{
    if n == 0 {
        Some(seq![])
    } else {
        match read_csv_line(s) {
            Some((cells, k)) => match read_csv_rows(s.skip(k as int), (n - 1) as nat) {
                Some(rs) => Some(seq![cells] + rs),
                None => None,
            },
            None => None,
        }
    }
}

proof fn lemma_csv_lines_front(rows: Seq<Seq<Seq<char>>>)
    requires
        rows.len() >= 1,
    ensures
        csv_lines(rows) == csv_line(rows[0]) + csv_lines(rows.drop_first()),
    decreases rows.len(),
{
    if rows.len() == 1 {
        assert(rows.drop_last() =~= Seq::<Seq<Seq<char>>>::empty());
        assert(rows.drop_first() =~= Seq::<Seq<Seq<char>>>::empty());
        assert(csv_lines(rows.drop_last()) =~= Seq::<char>::empty());
        assert(rows.last() == rows[0]);
        assert(csv_lines(rows) == csv_lines(rows.drop_last()) + csv_line(rows.last()));
        assert(csv_lines(rows) =~= csv_line(rows[0]));
        assert(csv_line(rows[0]) + csv_lines(rows.drop_first()) =~= csv_line(rows[0]));
    } else {
        let init = rows.drop_last();
        let tail = rows.drop_first();
        lemma_csv_lines_front(init);
        assert(init.drop_first() =~= tail.drop_last());
        assert(tail.last() == rows.last());
        assert(init[0] == rows[0]);
        assert(csv_lines(tail) == csv_lines(tail.drop_last()) + csv_line(tail.last()));
        assert(csv_lines(rows) =~= csv_line(rows[0]) + (csv_lines(tail.drop_last()) + csv_line(
            tail.last(),
        )));
    }
}

proof fn lemma_csv_rows_read_back(rows: Seq<Seq<Seq<char>>>, rest: Seq<char>)
    ensures
        read_csv_rows(csv_lines(rows) + rest, rows.len()) == Some(rows),
    decreases rows.len(),
{
    if rows.len() == 0 {
        assert(rows =~= Seq::<Seq<Seq<char>>>::empty());
    } else {
        let tail = rows.drop_first();
        lemma_csv_lines_front(rows);
        let s = csv_lines(rows) + rest;
        let line = csv_line(rows[0]);
        assert(s =~= line + (csv_lines(tail) + rest));
        lemma_csv_line_reads_back(rows[0], csv_lines(tail) + rest);
        assert(s.skip(line.len() as int) =~= csv_lines(tail) + rest);
        lemma_csv_rows_read_back(tail, rest);
        assert(seq![rows[0]] + tail =~= rows);
    }
}

/// An export file: the `sep=,` hint line, the column names separated by
/// commas (unquoted), then one line per row.
pub open spec fn csv_document(names: Seq<Seq<char>>, rows: Seq<Seq<Seq<char>>>) -> Seq<char> {
    "sep=,\n"@ + join(names, ","@) + "\n"@ + csv_lines(rows)
}

fn push_csv_line(out: &mut Vec<char>, cells: &Vec<String>)
    ensures
        final(out)@ == old(out)@ + csv_line(string_views(cells@)),
{
    let ghost start = out@;
    let ghost q = string_views(cells@).map_values(|c: Seq<char>| quoted(c));
    let mut i: usize = 0;
    while i < cells.len()
        invariant
            i <= cells.len(),
            q == string_views(cells@).map_values(|c: Seq<char>| quoted(c)),
            out@ =~= start + join(q.take(i as int), ","@),
        decreases cells.len() - i,
    {
        proof {
            assert(q.take(i + 1).drop_last() =~= q.take(i as int));
            assert(q[i as int] == quoted(cells@[i as int]@));
        }
        if i > 0 {
            push_str(out, ",");
        } else {
            assert(join(q.take(0), ","@) =~= Seq::<char>::empty());
        }
        push_quoted(out, cells[i].as_str());
        i = i + 1;
    }
    assert(q.take(cells.len() as int) =~= q);
    push_str(out, "\n");
}

/// The header of an export file: the `sep=,` hint line and the line of
/// column names.
pub open spec fn csv_header(names: Seq<Seq<char>>) -> Seq<char> {
    "sep=,\n"@ + join(names, ","@) + "\n"@
}

/// After its header, an export file reads back as exactly the rows that were
/// written, cell for cell, whatever the cells hold.
pub proof fn lemma_export_reads_back(names: Seq<Seq<char>>, rows: Seq<Seq<Seq<char>>>)
    ensures
        csv_document(names, rows) == csv_header(names) + csv_lines(rows),
        read_csv_rows(csv_document(names, rows).skip(csv_header(names).len() as int), rows.len())
            == Some(rows),
{
    let doc = csv_document(names, rows);
    assert(doc =~= csv_header(names) + csv_lines(rows));
    assert(doc.skip(csv_header(names).len() as int) =~= csv_lines(rows) + Seq::<char>::empty());
    lemma_csv_rows_read_back(rows, Seq::<char>::empty());
}

/// The text of an export file.
pub fn csv_export_text(names: &Vec<String>, rows: &Vec<Vec<String>>) -> (res: String)
    ensures
        res@ == csv_document(string_views(names@), row_views(rows@)),
{
    let mut v: Vec<char> = Vec::new();
    push_str(&mut v, "sep=,\n");
    push_joined(&mut v, names, ",");
    push_str(&mut v, "\n");
    let ghost head = v@;
    let ghost rv = row_views(rows@);
    let mut i: usize = 0;
    while i < rows.len()
        invariant
            i <= rows.len(),
            rv == row_views(rows@),
            v@ =~= head + csv_lines(rv.take(i as int)),
        decreases rows.len() - i,
    {
        proof {
            assert(rv.take(i + 1).drop_last() =~= rv.take(i as int));
            assert(rv[i as int] == string_views(rows@[i as int]@));
        }
        push_csv_line(&mut v, &rows[i]);
        i = i + 1;
    }
    assert(rv.take(rows.len() as int) =~= rv);
    chars_to_string(&v)
}

/// The name of an export file: `tusk-sqlite-<table>-<stamp>.csv`, the table
/// name with its quotes doubled.
pub open spec fn spec_export_file_name(table: Seq<char>, stamp: Seq<char>) -> Seq<char> {
    "tusk-sqlite-"@ + double_quotes(table) + "-"@ + stamp + ".csv"@
}

/// The name of an export file.
pub fn export_file_name(table: &str, stamp: &str) -> (res: String)
    ensures
        res@ == spec_export_file_name(table@, stamp@),
{
    let mut v: Vec<char> = Vec::new();
    push_str(&mut v, "tusk-sqlite-");
    push_double_quoted(&mut v, table);
    push_str(&mut v, "-");
    push_str(&mut v, stamp);
    push_str(&mut v, ".csv");
    chars_to_string(&v)
}

/// Where an export file goes: the `Downloads` folder of the home directory,
/// or `/tmp` when the home directory is not known.
pub open spec fn spec_export_path(home: Option<Seq<char>>, file_name: Seq<char>) -> Seq<char> {
    match home {
        Some(h) => h + "/Downloads/"@ + file_name,
        None => "/tmp/"@ + file_name,
    }
}

/// Where an export file goes.
pub fn export_path(home: Option<&str>, file_name: &str) -> (res: String)
    ensures
        res@ == spec_export_path(
            match home {
                Some(h) => Some(h@),
                None => None,
            },
            file_name@,
        ),
{
    let mut v: Vec<char> = Vec::new();
    match home {
        Some(h) => {
            push_str(&mut v, h);
            push_str(&mut v, "/Downloads/");
        },
        None => push_str(&mut v, "/tmp/"),
    }
    push_str(&mut v, file_name);
    chars_to_string(&v)
}

// ---------------------------------------------------------------------------
// Import.
proof fn lemma_trim_start(s: Seq<char>, a: int)
    requires
        0 <= a <= s.len(),
        forall|j: int| 0 <= j < a ==> is_whitespace(#[trigger] s[j]),
        a == s.len() || !is_whitespace(s[a]),
    ensures
        trim_start(s) == s.skip(a),
    decreases a,
{
    if a > 0 {
        assert(is_whitespace(s[0]));
        lemma_trim_start(s.drop_first(), a - 1);
        assert(s.drop_first().skip(a - 1) =~= s.skip(a));
    } else {
        assert(s.skip(0) =~= s);
    }
}

proof fn lemma_trim_end(s: Seq<char>, b: int)
    requires
        0 <= b <= s.len(),
        forall|j: int| b <= j < s.len() ==> is_whitespace(#[trigger] s[j]),
        b == 0 || !is_whitespace(s[b - 1]),
    ensures
        trim_end(s) == s.take(b),
    decreases s.len() - b,
{
    if b < s.len() {
        assert(is_whitespace(s.last()));
        lemma_trim_end(s.drop_last(), b);
        assert(s.drop_last().take(b) =~= s.take(b));
    } else {
        assert(s.take(b) =~= s);
    }
}

/// `s` without leading and trailing whitespace.
pub fn trim_str(s: &str) -> (res: String)
    ensures
        res@ == trim(s@),
{
    let cs = str_chars(s);
    let n = cs.len();
    let mut a: usize = 0;
    while a < n && char_is_whitespace(cs[a])
        invariant
            a <= n == cs@.len(),
            forall|j: int| 0 <= j < a ==> is_whitespace(#[trigger] cs@[j]),
        decreases n - a,
    {
        a = a + 1;
    }
    let mut b: usize = n;
    while b > a && char_is_whitespace(cs[b - 1])
        invariant
            a <= b <= n == cs@.len(),
            forall|j: int| b <= j < n ==> is_whitespace(#[trigger] cs@[j]),
        decreases b - a,
    {
        b = b - 1;
    }
    proof {
        lemma_trim_start(cs@, a as int);
        let t = cs@.skip(a as int);
        assert forall|j: int| (b - a) <= j < t.len() implies is_whitespace(#[trigger] t[j]) by {
            assert(t[j] == cs@[j + a]);
        }
        if b > a {
            assert(t[b - a - 1] == cs@[b - 1]);
        }
        lemma_trim_end(t, (b - a) as int);
        assert(t.take((b - a) as int) =~= cs@.subrange(a as int, b as int));
    }
    let mut v: Vec<char> = Vec::new();
    let mut k: usize = a;
    while k < b
        invariant
            a <= k <= b <= n == cs@.len(),
            v@ =~= cs@.subrange(a as int, k as int),
        decreases b - k,
    {
        v.push(cs[k]);
        k = k + 1;
    }
    chars_to_string(&v)
}

/// Every string of `items`, trimmed.
pub fn trim_all(items: &Vec<String>) -> (res: Vec<String>)
    ensures
        res@.len() == items@.len(),
        forall|i: int| 0 <= i < res@.len() ==> (#[trigger] res@[i])@ == trim(items@[i]@),
{
    let mut out: Vec<String> = Vec::new();
    let mut i: usize = 0;
    while i < items.len()
        invariant
            i <= items.len(),
            out@.len() == i,
            forall|j: int| 0 <= j < i ==> (#[trigger] out@[j])@ == trim(items@[j]@),
        decreases items.len() - i,
    {
        out.push(trim_str(items[i].as_str()));
        i = i + 1;
    }
    out
}

/// Whether `c` is `d` when ASCII letters are compared without case.
fn char_eq_ignore_ascii_case(c: char, d: char) -> (res: bool)
    ensures
        res == (ascii_lower(c) == ascii_lower(d)),
{
    let lc = if 'A' <= c && c <= 'Z' {
        ((c as u32) + 32) as u8 as char
    } else {
        c
    };
    let ld = if 'A' <= d && d <= 'Z' {
        ((d as u32) + 32) as u8 as char
    } else {
        d
    };
    lc == ld
}

/// Whether two strings are equal when ASCII letters are compared without case.
pub fn str_eq_ignore_ascii_case(a: &str, b: &str) -> (res: bool)
    ensures
        res == eq_ignore_ascii_case(a@, b@),
{
    let x = str_chars(a);
    let y = str_chars(b);
    if x.len() != y.len() {
        return false;
    }
    let mut i: usize = 0;
    while i < x.len()
        invariant
            i <= x.len() == y.len(),
            x@ == a@,
            y@ == b@,
            forall|j: int| 0 <= j < i ==> ascii_lower(#[trigger] x@[j]) == ascii_lower(y@[j]),
        decreases x.len() - i,
    {
        if !char_eq_ignore_ascii_case(x[i], y[i]) {
            return false;
        }
        i = i + 1;
    }
    true
}

/// Some column of the table has the name `header`, ignoring ASCII case.
pub open spec fn header_matches(header: Seq<char>, targets: Seq<Seq<char>>) -> bool {
    exists|j: int| 0 <= j < targets.len() && eq_ignore_ascii_case(#[trigger] targets[j], header)
}

/// The positions, in increasing order, of the first `k` headers that name a
/// column of the table.
pub open spec fn matched_indices(headers: Seq<Seq<char>>, targets: Seq<Seq<char>>, k: nat) -> Seq<
    usize,
>
    decreases k,
{
    if k == 0 {
        seq![]
    } else {
        let prev = matched_indices(headers, targets, (k - 1) as nat);
        if header_matches(headers[k - 1], targets) {
            prev.push((k - 1) as usize)
        } else {
            prev
        }
    }
}

fn any_matches(header: &str, targets: &Vec<String>) -> (res: bool)
    ensures
        res == header_matches(header@, string_views(targets@)),
{
    let ghost tv = string_views(targets@);
    let mut j: usize = 0;
    while j < targets.len()
        invariant
            j <= targets.len(),
            tv == string_views(targets@),
            forall|k: int| 0 <= k < j ==> !eq_ignore_ascii_case(#[trigger] tv[k], header@),
        decreases targets.len() - j,
    {
        if str_eq_ignore_ascii_case(targets[j].as_str(), header) {
            assert(eq_ignore_ascii_case(tv[j as int], header@));
            return true;
        }
        j = j + 1;
    }
    false
}

/// The positions of the headers of an imported file that name a column of
/// the table (ignoring ASCII case), in increasing order.
pub fn match_columns(headers: &Vec<String>, targets: &Vec<String>) -> (res: Vec<usize>)
    ensures
        res@ == matched_indices(
            string_views(headers@),
            string_views(targets@),
            headers@.len(),
        ),
{
    let ghost hv = string_views(headers@);
    let ghost tv = string_views(targets@);
    let mut out: Vec<usize> = Vec::new();
    let mut i: usize = 0;
    while i < headers.len()
        invariant
            i <= headers.len(),
            hv == string_views(headers@),
            tv == string_views(targets@),
            out@ == matched_indices(hv, tv, i as nat),
        decreases headers.len() - i,
    {
        assert(hv[i as int] == headers@[i as int]@);
        if any_matches(headers[i].as_str(), targets) {
            out.push(i);
        }
        i = i + 1;
    }
    out
}

/// An index is matched exactly when its header names a column, and the
/// matched indices increase.
pub proof fn lemma_matched_indices(headers: Seq<Seq<char>>, targets: Seq<Seq<char>>, k: nat)
    requires
        k <= headers.len() <= usize::MAX,
    ensures
        forall|i: int|
            0 <= i < k ==> (matched_indices(headers, targets, k).contains(i as usize)
                <==> header_matches(headers[i], targets)),
        forall|a: int, b: int|
            0 <= a < b < matched_indices(headers, targets, k).len() ==> matched_indices(
                headers,
                targets,
                k,
            )[a] < matched_indices(headers, targets, k)[b],
        forall|a: int|
            0 <= a < matched_indices(headers, targets, k).len() ==> matched_indices(
                headers,
                targets,
                k,
            )[a] < k,
    decreases k,
{
    if k > 0 {
        lemma_matched_indices(headers, targets, (k - 1) as nat);
        let prev = matched_indices(headers, targets, (k - 1) as nat);
        let cur = matched_indices(headers, targets, k);
        let last = (k - 1) as usize;
        if header_matches(headers[k - 1], targets) {
            assert(cur == prev.push(last));
            assert forall|i: int| 0 <= i < k implies (cur.contains(i as usize) <==> header_matches(
                headers[i],
                targets,
            )) by {
                if i < k - 1 {
                    if cur.contains(i as usize) {
                        let w = choose|w: int| 0 <= w < cur.len() && cur[w] == i as usize;
                        if w == prev.len() {
                            assert(cur[w] == last);
                        } else {
                            assert(prev[w] == i as usize);
                        }
                    }
                    if prev.contains(i as usize) {
                        let w = choose|w: int| 0 <= w < prev.len() && prev[w] == i as usize;
                        assert(cur[w] == i as usize);
                    }
                } else {
                    assert(cur[prev.len() as int] == last);
                }
            }
            assert forall|a: int, b: int| 0 <= a < b < cur.len() implies cur[a] < cur[b] by {
                assert(cur[a] == prev[a]);
                if b < prev.len() {
                    assert(cur[b] == prev[b]);
                }
            }
            assert forall|a: int| 0 <= a < cur.len() implies cur[a] < k by {
                if a < prev.len() {
                    assert(cur[a] == prev[a]);
                }
            }
        } else {
            assert(cur == prev);
            assert forall|i: int| 0 <= i < k implies (cur.contains(i as usize) <==> header_matches(
                headers[i],
                targets,
            )) by {
                if i == k - 1 && cur.contains(i as usize) {
                    let w = choose|w: int| 0 <= w < cur.len() && cur[w] == i as usize;
                    assert(prev[w] < k - 1);
                }
            }
        }
    }
}

/// The message when no header names a column: the columns of the table,
/// separated by commas.
pub open spec fn spec_no_match_message(targets: Seq<Seq<char>>) -> Seq<char> {
    "CSV 表头与目标表列无匹配（目标列: "@ + join(targets, ", "@) + "）"@
}

/// The message when no header names a column.
pub fn no_match_message(targets: &Vec<String>) -> (res: String)
    ensures
        res@ == spec_no_match_message(string_views(targets@)),
{
    let mut v: Vec<char> = Vec::new();
    push_str(&mut v, "CSV 表头与目标表列无匹配（目标列: ");
    push_joined(&mut v, targets, ", ");
    push_str(&mut v, "）");
    chars_to_string(&v)
}

/// The quoted names of the matched headers.
pub open spec fn matched_columns(headers: Seq<Seq<char>>, matched: Seq<usize>) -> Seq<Seq<char>> {
    Seq::new(matched.len(), |k: int| quoted(headers[matched[k] as int]))
}

/// The numbered placeholders `?1`, `?2`, ..., `?m`.
pub open spec fn placeholders(m: nat) -> Seq<Seq<char>> {
    Seq::new(m, |k: int| seq!['?'] + decimal((k + 1) as nat))
}

/// The statement that inserts one imported row: the matched headers as
/// quoted column names, and one numbered placeholder for each of them, in
/// the order of the matched columns (the order of `record_values`).
pub open spec fn spec_import_insert_sql(
    table: Seq<char>,
    headers: Seq<Seq<char>>,
    matched: Seq<usize>,
) -> Seq<char> {
    "INSERT INTO "@ + quoted(table) + " ("@ + join(matched_columns(headers, matched), ", "@)
        + ") VALUES ("@ + join(placeholders(matched.len()), ", "@) + ")"@
}

/// The statement that inserts one imported row.
pub fn import_insert_sql(table: &str, headers: &Vec<String>, matched: &Vec<usize>) -> (res: String)
    requires
        forall|k: int| 0 <= k < matched@.len() ==> #[trigger] matched@[k] < headers@.len(),
    ensures
        res@ == spec_import_insert_sql(table@, string_views(headers@), matched@),
{
    let mut v: Vec<char> = Vec::new();
    push_str(&mut v, "INSERT INTO ");
    push_quoted(&mut v, table);
    push_str(&mut v, " (");
    let ghost head = v@;
    let ghost cols = matched_columns(string_views(headers@), matched@);
    let mut i: usize = 0;
    while i < matched.len()
        invariant
            i <= matched.len(),
            forall|k: int| 0 <= k < matched@.len() ==> #[trigger] matched@[k] < headers@.len(),
            cols == matched_columns(string_views(headers@), matched@),
            v@ =~= head + join(cols.take(i as int), ", "@),
        decreases matched.len() - i,
    {
        proof {
            assert(cols.take(i + 1).drop_last() =~= cols.take(i as int));
            assert(cols[i as int] == quoted(headers@[matched@[i as int] as int]@));
        }
        if i > 0 {
            push_str(&mut v, ", ");
        } else {
            assert(join(cols.take(0), ", "@) =~= Seq::<char>::empty());
        }
        push_quoted(&mut v, headers[matched[i]].as_str());
        i = i + 1;
    }
    assert(cols.take(matched.len() as int) =~= cols);
    push_str(&mut v, ") VALUES (");
    let ghost mid = v@;
    let ghost ph = placeholders(matched@.len());
    let mut j: usize = 0;
    while j < matched.len()
        invariant
            j <= matched.len(),
            ph == placeholders(matched@.len()),
            v@ =~= mid + join(ph.take(j as int), ", "@),
        decreases matched.len() - j,
    {
        proof {
            assert(ph.take(j + 1).drop_last() =~= ph.take(j as int));
        }
        if j > 0 {
            push_str(&mut v, ", ");
        } else {
            assert(join(ph.take(0), ", "@) =~= Seq::<char>::empty());
        }
        v.push('?');
        push_decimal(&mut v, (j as u128) + 1);
        j = j + 1;
    }
    assert(ph.take(matched.len() as int) =~= ph);
    push_str(&mut v, ")");
    chars_to_string(&v)
}

/// The values of one record for the matched columns, in their order; a
/// record shorter than a matched position gives the empty string there.
pub open spec fn spec_record_values(record: Seq<Seq<char>>, matched: Seq<usize>) -> Seq<Seq<char>> {
    Seq::new(
        matched.len(),
        |k: int|
            if matched[k] < record.len() {
                record[matched[k] as int]
            } else {
                Seq::<char>::empty()
            },
    )
}

/// The values of one imported record for the matched columns; a record
/// shorter than a matched position gives the empty string there.
pub fn record_values(record: &Vec<String>, matched: &Vec<usize>) -> (res: Vec<String>)
    ensures
        string_views(res@) == spec_record_values(string_views(record@), matched@),
        res@.len() == matched@.len(),
        forall|k: int|
            0 <= k < res@.len() ==> (#[trigger] res@[k])@ == (if matched@[k] < record@.len() {
                record@[matched@[k] as int]@
            } else {
                Seq::<char>::empty()
            }),
{
    let mut out: Vec<String> = Vec::new();
    let mut k: usize = 0;
    while k < matched.len()
        invariant
            k <= matched.len(),
            out@.len() == k,
            forall|j: int|
                0 <= j < k ==> (#[trigger] out@[j])@ == (if matched@[j] < record@.len() {
                    record@[matched@[j] as int]@
                } else {
                    Seq::<char>::empty()
                }),
        decreases matched.len() - k,
    {
        let i = matched[k];
        if i < record.len() {
            out.push(record[i].clone());
        } else {
            out.push(String::new());
        }
        k = k + 1;
    }
    assert(string_views(out@) =~= spec_record_values(string_views(record@), matched@));
    out
}

/// Where an import stopped.
#[derive(Debug, Clone, Copy, PartialEq, Eq, Structural)]
pub enum ImportStage {
    /// A record of the file could not be read.
    Parse,
    /// A record could not be inserted.
    Insert,
}

/// The message of an import that stopped after `count` rows: the line of the
/// file (the header is line 1), then the cause.
pub open spec fn spec_import_row_error(stage: ImportStage, count: nat, detail: Seq<char>) -> Seq<
    char,
> {
    (match stage {
        ImportStage::Parse => "解析第 "@,
        ImportStage::Insert => "插入第 "@,
    }) + decimal(count + 2) + " 行失败: "@ + detail
}

/// The message of an import that stopped after `count` rows.
pub fn import_row_error(stage: ImportStage, count: u64, detail: &str) -> (res: String)
    ensures
        res@ == spec_import_row_error(stage, count as nat, detail@),
{
    let mut v: Vec<char> = Vec::new();
    match stage {
        ImportStage::Parse => push_str(&mut v, "解析第 "),
        ImportStage::Insert => push_str(&mut v, "插入第 "),
    }
    push_decimal(&mut v, (count as u128) + 2);
    push_str(&mut v, " 行失败: ");
    push_str(&mut v, detail);
    let res = chars_to_string(&v);
    assert(res@ =~= spec_import_row_error(stage, count as nat, detail@));
    res
}

// ---------------------------------------------------------------------------
// Reading an import file.
/// What the `csv` crate reads from the bytes of a file with a header line
/// (default settings): the header fields, and each record's fields or the
/// text of the error it gave; or the text of the error the header gave.
pub uninterp spec fn spec_csv_read(bytes: Seq<u8>) -> Result<
    (Seq<Seq<char>>, Seq<Result<Seq<Seq<char>>, Seq<char>>>),
    Seq<char>,
>;

/// The views of records read from a file.
pub open spec fn record_views(rs: Seq<Result<Vec<String>, String>>) -> Seq<
    Result<Seq<Seq<char>>, Seq<char>>,
> {
    rs.map_values(
        |r: Result<Vec<String>, String>|
            match r {
                Ok(v) => Ok(string_views(v@)),
                Err(e) => Err(e@),
            },
    )
}

/// Reads CSV bytes with `csv::ReaderBuilder::new().from_reader` (a header
/// line, records of equal length): the header fields, then every record as
/// its fields or the text of its error. The contract names the result; the
/// reader's grammar is left unsaid.
#[verifier::external_body]
fn read_csv(bytes: &Vec<u8>) -> (res: Result<(Vec<String>, Vec<Result<Vec<String>, String>>), String>)
    ensures
        match res {
            Ok((h, rs)) => spec_csv_read(bytes@) == Ok::<
                (Seq<Seq<char>>, Seq<Result<Seq<Seq<char>>, Seq<char>>>),
                Seq<char>,
            >((string_views(h@), record_views(rs@))),
            Err(e) => spec_csv_read(bytes@) == Err::<
                (Seq<Seq<char>>, Seq<Result<Seq<Seq<char>>, Seq<char>>>),
                Seq<char>,
            >(e@),
        },
{
    let mut rdr = csv::ReaderBuilder::new().from_reader(bytes.as_slice());
    let headers: Vec<String> = match rdr.headers() {
        Ok(h) => h.iter().map(|f| f.to_string()).collect(),
        Err(e) => return Err(e.to_string()),
    };
    let records: Vec<Result<Vec<String>, String>> = rdr.records().map(|r| match r {
        Ok(rec) => Ok(rec.iter().map(|f| f.to_string()).collect()),
        Err(e) => Err(e.to_string()),
    }).collect();
    Ok((headers, records))
}

/// An import file as read: the trimmed header fields and the records.
pub struct ImportFile {
    pub headers: Vec<String>,
    pub records: Vec<Result<Vec<String>, String>>,
}

/// The message when the header line cannot be read.
pub open spec fn header_error_message(detail: Seq<char>) -> Seq<char> {
    "解析表头失败: "@ + detail
}

/// Every item of `items`, trimmed.
pub open spec fn trimmed(items: Seq<Seq<char>>) -> Seq<Seq<char>> {
    items.map_values(|x: Seq<char>| trim(x))
}

/// Reads the bytes of an import file: its header fields, trimmed, and its
/// records; or the message of a header that cannot be read.
pub fn read_import_file(bytes: &Vec<u8>) -> (res: Result<ImportFile, String>)
    ensures
        match spec_csv_read(bytes@) {
            Ok((h, rs)) => res matches Ok(f) && string_views(f.headers@) == trimmed(h)
                && record_views(f.records@) == rs,
            Err(e) => res matches Err(m) && m@ == header_error_message(e),
        },
{
    match read_csv(bytes) {
        Ok((raw, records)) => {
            let headers = trim_all(&raw);
            assert(string_views(headers@) =~= trimmed(string_views(raw@)));
            Ok(ImportFile { headers, records })
        },
        Err(e) => {
            let mut v: Vec<char> = Vec::new();
            push_str(&mut v, "解析表头失败: ");
            push_str(&mut v, e.as_str());
            Err(chars_to_string(&v))
        },
    }
}

/// The step for record `k`: the values to insert, or the message of a
/// record that cannot be read.
pub open spec fn import_step(r: Result<Seq<Seq<char>>, Seq<char>>, k: nat, matched: Seq<usize>) -> Result<
    Seq<Seq<char>>,
    Seq<char>,
> {
    match r {
        Ok(rec) => Ok(spec_record_values(rec, matched)),
        Err(e) => Err(spec_import_row_error(ImportStage::Parse, k, e)),
    }
}

/// The steps for the first `n` records, in order, ending with the first
/// record that cannot be read (nothing after it is looked at).
pub open spec fn import_steps(
    rs: Seq<Result<Seq<Seq<char>>, Seq<char>>>,
    matched: Seq<usize>,
    n: nat,
) -> Seq<Result<Seq<Seq<char>>, Seq<char>>>
    decreases n,
{
    if n == 0 {
        seq![]
    } else {
        let prev = import_steps(rs, matched, (n - 1) as nat);
        if prev.len() > 0 && prev.last() is Err {
            prev
        } else {
            prev.push(import_step(rs[n - 1], (n - 1) as nat, matched))
        }
    }
}

proof fn lemma_import_steps_stay(
    rs: Seq<Result<Seq<Seq<char>>, Seq<char>>>,
    matched: Seq<usize>,
    k: nat,
    n: nat,
)
    requires
        k <= n,
        import_steps(rs, matched, k).len() > 0,
        import_steps(rs, matched, k).last() is Err,
    ensures
        import_steps(rs, matched, n) == import_steps(rs, matched, k),
    decreases n - k,
{
    if n > k {
        lemma_import_steps_stay(rs, matched, k, (n - 1) as nat);
    }
}

/// What an import does: the statement that inserts one row, and the step
/// for each record in order: the values to bind, or, for the first record
/// that cannot be read, its message (line = position + 2), after which no
/// record is looked at. No header naming a column of the table is an error.
pub open spec fn spec_import_plan(
    table: Seq<char>,
    headers: Seq<Seq<char>>,
    records: Seq<Result<Seq<Seq<char>>, Seq<char>>>,
    targets: Seq<Seq<char>>,
) -> Result<(Seq<char>, Seq<Result<Seq<Seq<char>>, Seq<char>>>), Seq<char>> {
    let m = matched_indices(headers, targets, headers.len());
    if m.len() == 0 {
        Err(spec_no_match_message(targets))
    } else {
        Ok((spec_import_insert_sql(table, headers, m), import_steps(records, m, records.len())))
    }
}

/// Plans the import of a file into `table`, whose columns are `targets`.
pub fn import_plan(table: &str, file: &ImportFile, targets: &Vec<String>) -> (res: Result<
    (String, Vec<Result<Vec<String>, String>>),
    String,
>)
    ensures
        match spec_import_plan(
            table@,
            string_views(file.headers@),
            record_views(file.records@),
            string_views(targets@),
        ) {
            Ok((sql, steps)) => res matches Ok((s, st)) && s@ == sql && record_views(st@) == steps,
            Err(e) => res matches Err(m) && m@ == e,
        },
{
    let ghost hv = string_views(file.headers@);
    let ghost tv = string_views(targets@);
    let ghost rv = record_views(file.records@);
    let matched = match_columns(&file.headers, targets);
    let ghost m = matched@;
    if matched.len() == 0 {
        return Err(no_match_message(targets));
    }
    let header_count = file.headers.len();
    proof {
        assert(hv.len() == header_count);
        lemma_matched_indices(hv, tv, hv.len());
    }
    let sql = import_insert_sql(table, &file.headers, &matched);
    let mut steps: Vec<Result<Vec<String>, String>> = Vec::new();
    let mut k: usize = 0;
    let mut stopped = false;
    let n = file.records.len();
    while k < n && !stopped
        invariant
            k <= n == file.records@.len(),
            rv == record_views(file.records@),
            m == matched@,
            record_views(steps@) == import_steps(rv, m, k as nat),
            stopped <==> (steps@.len() > 0 && record_views(steps@).last() is Err),
            !stopped ==> steps@.len() == k,
        decreases n - k,
    {
        let ghost before = steps@;
        assert(rv[k as int] == match file.records@[k as int] {
            Ok(v) => Ok(string_views(v@)),
            Err(e) => Err::<Seq<Seq<char>>, Seq<char>>(e@),
        });
        match &file.records[k] {
            Ok(rec) => {
                steps.push(Ok(record_values(rec, &matched)));
            },
            Err(e) => {
                steps.push(Err(import_row_error(ImportStage::Parse, k as u64, e.as_str())));
                stopped = true;
            },
        }
        assert(record_views(steps@) =~= record_views(before).push(
            import_step(rv[k as int], k as nat, m),
        ));
        k = k + 1;
    }
    if stopped {
        proof {
            lemma_import_steps_stay(rv, m, k as nat, n as nat);
        }
    }
    Ok((sql, steps))
}

// ---------------------------------------------------------------------------
// What export and import do with their values.
/// An integer is exported as its decimal digits, with a leading `-` when it
/// is negative; the text is never empty, so an integer (zero included) is
/// never exported like `NULL`.
pub proof fn lemma_integer_export_text(i: i64)
    ensures
        spec_cell_text(CellValue::Integer(i)) is Some,
        ({
            let t = spec_cell_text(CellValue::Integer(i))->0;
            &&& t.len() > 0
            &&& t != spec_cell_text(CellValue::Null)->0
            &&& i >= 0 ==> all_digits(t) && digits_value(t) == i
            &&& i < 0 ==> t[0] == '-' && all_digits(t.drop_first()) && digits_value(t.drop_first())
                == -i
        }),
{
    let t = spec_cell_text(CellValue::Integer(i))->0;
    if i >= 0 {
        lemma_decimal(i as nat);
    } else {
        lemma_decimal((-i) as nat);
        assert(t.drop_first() =~= decimal((-i) as nat));
    }
}

/// Header `i` names a column exactly when some column of the table has the
/// same length and the same characters, ASCII letters compared without case;
/// a header that only starts or ends like a column does not.
pub proof fn lemma_header_match_is_whole_name(headers: Seq<Seq<char>>, targets: Seq<Seq<char>>, i: int)
    requires
        headers.len() <= usize::MAX,
        0 <= i < headers.len(),
    ensures
        matched_indices(headers, targets, headers.len()).contains(i as usize) <==> exists|j: int|
            0 <= j < targets.len() && (#[trigger] targets[j]).len() == headers[i].len()
                && forall|k: int|
                0 <= k < headers[i].len() ==> (if 'A' <= #[trigger] targets[j][k] <= 'Z' {
                    ((targets[j][k] as int) + 32) as char
                } else {
                    targets[j][k]
                }) == (if 'A' <= headers[i][k] <= 'Z' {
                    ((headers[i][k] as int) + 32) as char
                } else {
                    headers[i][k]
                }),
{
    lemma_matched_indices(headers, targets, headers.len());
    if header_matches(headers[i], targets) {
        let j = choose|j: int|
            0 <= j < targets.len() && eq_ignore_ascii_case(#[trigger] targets[j], headers[i]);
        assert(targets[j].len() == headers[i].len());
        assert forall|k: int| 0 <= k < headers[i].len() implies (if 'A' <= #[trigger] targets[j][k] <= 'Z' {
            ((targets[j][k] as int) + 32) as char
        } else {
            targets[j][k]
        }) == (if 'A' <= headers[i][k] <= 'Z' {
            ((headers[i][k] as int) + 32) as char
        } else {
            headers[i][k]
        }) by {
            assert(ascii_lower(targets[j][k]) == ascii_lower(headers[i][k]));
        }
    }
    if exists|j: int|
            0 <= j < targets.len() && (#[trigger] targets[j]).len() == headers[i].len()
                && forall|k: int|
                0 <= k < headers[i].len() ==> (if 'A' <= #[trigger] targets[j][k] <= 'Z' {
                    ((targets[j][k] as int) + 32) as char
                } else {
                    targets[j][k]
                }) == (if 'A' <= headers[i][k] <= 'Z' {
                    ((headers[i][k] as int) + 32) as char
                } else {
                    headers[i][k]
                }) {
        let j = choose|j: int|
            0 <= j < targets.len() && (#[trigger] targets[j]).len() == headers[i].len()
                && forall|k: int|
                0 <= k < headers[i].len() ==> (if 'A' <= #[trigger] targets[j][k] <= 'Z' {
                    ((targets[j][k] as int) + 32) as char
                } else {
                    targets[j][k]
                }) == (if 'A' <= headers[i][k] <= 'Z' {
                    ((headers[i][k] as int) + 32) as char
                } else {
                    headers[i][k]
                });
        assert forall|k: int| 0 <= k < targets[j].len() implies ascii_lower(#[trigger] targets[j][k])
            == ascii_lower(headers[i][k]) by {
        }
        assert(eq_ignore_ascii_case(targets[j], headers[i]));
    }
}

/// `NULL` is exported as the empty text, text as itself, and a real number
/// gets its text from the caller.
pub proof fn lemma_export_cells(text: String, bits: u64)
    ensures
        spec_cell_text(CellValue::Null) == Some(Seq::<char>::empty()),
        spec_cell_text(CellValue::Text(text)) == Some(text@),
        spec_cell_text(CellValue::Real(bits)) is None,
{
}

proof fn lemma_trim_start_skips(s: Seq<char>)
    ensures
        exists|a: int|
            0 <= a <= s.len() && trim_start(s) == s.skip(a) && (forall|i: int|
                0 <= i < a ==> is_whitespace(#[trigger] s[i])),
        trim_start(s).len() > 0 ==> !is_whitespace(trim_start(s)[0]),
    decreases s.len(),
{
    if s.len() > 0 && is_whitespace(s[0]) {
        let t = s.drop_first();
        lemma_trim_start_skips(t);
        let a = choose|a: int|
            0 <= a <= t.len() && trim_start(t) == t.skip(a) && (forall|i: int|
                0 <= i < a ==> is_whitespace(#[trigger] t[i]));
        assert(t.skip(a) =~= s.skip(a + 1));
        assert forall|i: int| 0 <= i < a + 1 implies is_whitespace(#[trigger] s[i]) by {
            if i > 0 {
                assert(s[i] == t[i - 1]);
            }
        }
    } else {
        assert(s.skip(0) =~= s);
    }
}

proof fn lemma_trim_end_takes(s: Seq<char>)
    ensures
        exists|b: int|
            0 <= b <= s.len() && trim_end(s) == s.take(b) && (forall|i: int|
                b <= i < s.len() ==> is_whitespace(#[trigger] s[i])),
        trim_end(s).len() > 0 ==> !is_whitespace(trim_end(s).last()),
    decreases s.len(),
{
    if s.len() > 0 && is_whitespace(s.last()) {
        let t = s.drop_last();
        lemma_trim_end_takes(t);
        let b = choose|b: int|
            0 <= b <= t.len() && trim_end(t) == t.take(b) && (forall|i: int|
                b <= i < t.len() ==> is_whitespace(#[trigger] t[i]));
        assert(t.take(b) =~= s.take(b));
        assert forall|i: int| b <= i < s.len() implies is_whitespace(#[trigger] s[i]) by {
            if i < s.len() - 1 {
                assert(s[i] == t[i]);
            }
        }
    } else {
        assert(s.take(s.len() as int) =~= s);
    }
}

/// Trimming removes whitespace at both ends and nothing else: the result is
/// a stretch of the text with only whitespace before and after it, and it
/// neither starts nor ends with whitespace.
pub proof fn lemma_trim_removes_only_outer_whitespace(s: Seq<char>)
    ensures
        exists|a: int, b: int|
            0 <= a <= b <= s.len() && trim(s) == s.subrange(a, b) && (forall|i: int|
                0 <= i < a ==> is_whitespace(#[trigger] s[i])) && (forall|i: int|
                b <= i < s.len() ==> is_whitespace(#[trigger] s[i])),
        trim(s).len() > 0 ==> !is_whitespace(trim(s)[0]) && !is_whitespace(trim(s).last()),
{
    lemma_trim_start_skips(s);
    let a = choose|a: int|
        0 <= a <= s.len() && trim_start(s) == s.skip(a) && (forall|i: int|
            0 <= i < a ==> is_whitespace(#[trigger] s[i]));
    let t = trim_start(s);
    lemma_trim_end_takes(t);
    let b = choose|b: int|
        0 <= b <= t.len() && trim_end(t) == t.take(b) && (forall|i: int|
            b <= i < t.len() ==> is_whitespace(#[trigger] t[i]));
    assert(t.take(b) =~= s.subrange(a, a + b));
    assert forall|i: int| a + b <= i < s.len() implies is_whitespace(#[trigger] s[i]) by {
        assert(s[i] == t[i - a]);
    }
    if trim(s).len() > 0 {
        assert(trim(s)[0] == t[0]);
    }
}

/// The placeholders of an import are numbered `1`, `2`, ... in order: each
/// is `?` followed by the decimal digits of its position plus one, so no two
/// are alike.
pub proof fn lemma_placeholders_numbered(m: nat)
    ensures
        placeholders(m).len() == m,
        forall|k: int|
            0 <= k < m ==> (#[trigger] placeholders(m)[k])[0] == '?' && all_digits(
                placeholders(m)[k].drop_first(),
            ) && digits_value(placeholders(m)[k].drop_first()) == k + 1,
        forall|k: int, l: int|
            0 <= k < l < m ==> #[trigger] placeholders(m)[k] != #[trigger] placeholders(m)[l],
{
    assert forall|k: int| 0 <= k < m implies (#[trigger] placeholders(m)[k])[0] == '?' && all_digits(
        placeholders(m)[k].drop_first(),
    ) && digits_value(placeholders(m)[k].drop_first()) == k + 1 by {
        lemma_decimal((k + 1) as nat);
        assert(placeholders(m)[k].drop_first() =~= decimal((k + 1) as nat));
    }
    assert forall|k: int, l: int| 0 <= k < l < m implies #[trigger] placeholders(m)[k]
        != #[trigger] placeholders(m)[l] by {
        lemma_decimal((k + 1) as nat);
        lemma_decimal((l + 1) as nat);
        assert(placeholders(m)[k].drop_first() =~= decimal((k + 1) as nat));
        assert(placeholders(m)[l].drop_first() =~= decimal((l + 1) as nat));
    }
}

/// The values bound for a record are, for each matched column in order, the
/// record's field at that column's position, or the empty text when the
/// record is shorter.
pub proof fn lemma_record_values_follow_columns(record: Seq<Seq<char>>, matched: Seq<usize>)
    ensures
        spec_record_values(record, matched).len() == matched.len(),
        forall|k: int|
            0 <= k < matched.len() && matched[k] < record.len() ==> #[trigger] spec_record_values(
                record,
                matched,
            )[k] == record[matched[k] as int],
        forall|k: int|
            0 <= k < matched.len() && matched[k] >= record.len() ==> #[trigger] spec_record_values(
                record,
                matched,
            )[k] == Seq::<char>::empty(),
{
}

/// The import goes through the records in order: each readable record
/// before the first unreadable one gives its values; the first unreadable
/// record gives the parse error for line `position + 2` and ends the steps;
/// when every record is readable there is one step per record.
pub proof fn lemma_import_steps_in_order(
    rs: Seq<Result<Seq<Seq<char>>, Seq<char>>>,
    matched: Seq<usize>,
    n: nat,
)
    requires
        n <= rs.len(),
    ensures
        ({
            let st = import_steps(rs, matched, n);
            &&& st.len() <= n
            &&& forall|k: int|
                0 <= k < st.len() ==> match rs[k] {
                    Ok(rec) => #[trigger] st[k] == Ok::<Seq<Seq<char>>, Seq<char>>(
                        spec_record_values(rec, matched),
                    ),
                    Err(e) => st[k] == Err::<Seq<Seq<char>>, Seq<char>>(
                        spec_import_row_error(ImportStage::Parse, k as nat, e),
                    ) && k == st.len() - 1,
                }
            &&& st.len() < n ==> st.len() > 0 && rs[st.len() - 1] is Err
            &&& (forall|k: int| 0 <= k < n ==> #[trigger] rs[k] is Ok) ==> st.len() == n
        }),
    decreases n,
{
    if n > 0 {
        lemma_import_steps_in_order(rs, matched, (n - 1) as nat);
        let prev = import_steps(rs, matched, (n - 1) as nat);
        if !(prev.len() > 0 && prev.last() is Err) {
            assert(prev.len() == n - 1);
        }
    }
}

/// A text is blank (the check that refuses a database path, and that turns
/// a filter off) exactly when trimming leaves nothing of it.
pub proof fn lemma_blank_iff_trims_to_empty(s: Seq<char>)
    ensures
        is_blank(s) <==> trim(s).len() == 0,
{
    lemma_trim_removes_only_outer_whitespace(s);
    let (a, b) = choose|a: int, b: int|
        0 <= a <= b <= s.len() && trim(s) == s.subrange(a, b) && (forall|i: int|
            0 <= i < a ==> is_whitespace(#[trigger] s[i])) && (forall|i: int|
            b <= i < s.len() ==> is_whitespace(#[trigger] s[i]));
    if trim(s).len() == 0 {
        assert forall|i: int| 0 <= i < s.len() implies is_whitespace(#[trigger] s[i]) by {
            if i >= a {
                assert(i >= b);
            }
        }
    } else {
        assert(s[a] == trim(s)[0]);
    }
}

/// An export file goes into the `Downloads` folder of the home directory, or
/// into `/tmp` without one, under exactly its file name; the file name starts
/// with `tusk-sqlite-`, holds the time stamp and ends in `.csv`.
pub proof fn lemma_export_destination(home: Option<Seq<char>>, table: Seq<char>, stamp: Seq<char>)
    ensures
        ({
            let f = spec_export_file_name(table, stamp);
            let p = spec_export_path(home, f);
            &&& p.skip(p.len() - f.len()) == f
            &&& home matches Some(h) ==> p.take(h.len() + 11 as int) == h + "/Downloads/"@
            &&& home is None ==> p.take(5) == "/tmp/"@
            &&& f.take(12) == "tusk-sqlite-"@
            &&& f.skip(f.len() - 4) == ".csv"@
            &&& f.subrange(f.len() - 4 - stamp.len(), f.len() - 4) == stamp
        }),
{
    reveal_strlit("/Downloads/");
    reveal_strlit("/tmp/");
    reveal_strlit("tusk-sqlite-");
    reveal_strlit(".csv");
    let f = spec_export_file_name(table, stamp);
    let p = spec_export_path(home, f);
    assert(p.skip(p.len() - f.len()) =~= f);
    match home {
        Some(h) => {
            assert(p.take(h.len() + 11 as int) =~= h + "/Downloads/"@);
        },
        None => {
            assert(p.take(5) =~= "/tmp/"@);
        },
    }
    assert(f.take(12) =~= "tusk-sqlite-"@);
    assert(f.skip(f.len() - 4) =~= ".csv"@);
    assert(f.subrange(f.len() - 4 - stamp.len(), f.len() - 4) =~= stamp);
}

} // verus!
