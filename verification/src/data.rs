//! The data exporter: renders row values through per-type literal
//! formatting and emits batched INSERT statements with truncate and
//! identity-insert bracketing.

use vstd::prelude::*;
use crate::text::{
    chars_of, contains_char, contains_lit, count_char, eq_str, has_substring, is_digit,
    is_digit_char, join_strings, seq_join, string_of, subvec, trim_spec, trim_vec, upper_seq,
    upper_vec,
};
use crate::model::{Column, ColumnView, Sequence, SequenceView, TableDetails, TableDetailsView};
use crate::literal::{quote_identifier, spec_quote_identifier};
use crate::text::{dec_int, i64_to_string, usize_to_string};
use crate::literal::{
    escape_single_quotes, has_timezone_offset, normalize_iso8601_timestamp, rfind_char,
    rfind_in, rfind_sign, rfind_sign_in, find_char, find_in, spec_escape_literal,
    spec_has_timezone_offset, spec_normalize_iso8601, strip_prefix_all, strip_prefix_repeated,
};

verus! {

/// The numeric families the data exporter passes through unquoted.
pub open spec fn spec_is_numeric_data_type(dt: Seq<char>) -> bool {
    dt == "NUMBER"@ || dt == "INTEGER"@ || dt == "INT"@ || dt == "SMALLINT"@ || dt == "BIGINT"@
        || dt == "DECIMAL"@ || dt == "NUMERIC"@ || dt == "FLOAT"@ || dt == "DOUBLE"@ || dt
        == "REAL"@
}

/// Whether a declared type (any case) is numeric for row-value rendering.
pub fn is_numeric_type(data_type: &str) -> (r: bool)
    ensures
        r == spec_is_numeric_data_type(upper_seq(data_type@)),
{
    let v = chars_of(data_type);
    let u = upper_vec(&v);
    eq_str(&u, "NUMBER") || eq_str(&u, "INTEGER") || eq_str(&u, "INT") || eq_str(&u, "SMALLINT")
        || eq_str(&u, "BIGINT") || eq_str(&u, "DECIMAL") || eq_str(&u, "NUMERIC") || eq_str(
        &u,
        "FLOAT",
    ) || eq_str(&u, "DOUBLE") || eq_str(&u, "REAL")
}

pub open spec fn spec_is_date_data_type(dt: Seq<char>) -> bool {
    dt == "DATE"@
}

/// Whether a declared type (any case) is the plain date type.
pub fn is_date_type(dt: &str) -> (r: bool)
    ensures
        r == spec_is_date_data_type(upper_seq(dt@)),
{
    let v = chars_of(dt);
    let u = upper_vec(&v);
    eq_str(&u, "DATE")
}

pub open spec fn spec_is_timestamp_data_type(dt: Seq<char>) -> bool {
    dt == "TIMESTAMP"@ || dt == "TIMESTAMP WITH TIME ZONE"@ || dt
        == "TIMESTAMP WITH LOCAL TIME ZONE"@
}

/// Whether a declared type (any case) is in the timestamp family.
pub fn is_timestamp_type(dt: &str) -> (r: bool)
    ensures
        r == spec_is_timestamp_data_type(upper_seq(dt@)),
{
    let v = chars_of(dt);
    let u = upper_vec(&v);
    eq_str(&u, "TIMESTAMP") || eq_str(&u, "TIMESTAMP WITH TIME ZONE") || eq_str(
        &u,
        "TIMESTAMP WITH LOCAL TIME ZONE",
    )
}

pub open spec fn spec_is_binary_data_type(dt: Seq<char>) -> bool {
    dt == "RAW"@ || dt == "BINARY"@ || dt == "VARBINARY"@ || dt == "BLOB"@
}

/// Whether a declared type (any case) is in the binary family.
pub fn is_binary_type(dt: &str) -> (r: bool)
    ensures
        r == spec_is_binary_data_type(upper_seq(dt@)),
{
    let v = chars_of(dt);
    let u = upper_vec(&v);
    eq_str(&u, "RAW") || eq_str(&u, "BINARY") || eq_str(&u, "VARBINARY") || eq_str(&u, "BLOB")
}

/// The timestamp part of a normalized value without its trailing timezone
/// offset, when one is present.
pub open spec fn spec_timestamp_main_part(normalized: Seq<char>) -> Seq<char> {
    if spec_has_timezone_offset(normalized) {
        match rfind_sign(normalized) {
            Some(p) => if normalized.take(p).contains(':') {
                normalized.take(p)
            } else {
                normalized
            },
            None => normalized,
        }
    } else {
        normalized
    }
}

/// The format string matching a normalized row timestamp value.
pub open spec fn spec_timestamp_value_format(normalized: Seq<char>) -> Seq<char> {
    let main = spec_timestamp_main_part(normalized);
    let has_tz = spec_has_timezone_offset(normalized);
    let base = match find_char(main, ' ') {
        Some(sp) => {
            let time_part = main.skip(sp + 1);
            if count_char(time_part, ':') >= 2 {
                "YYYY-MM-DD HH24:MI:SS"@
            } else if count_char(time_part, ':') == 1 {
                "YYYY-MM-DD HH24:MI"@
            } else {
                "YYYY-MM-DD"@
            }
        },
        None => "YYYY-MM-DD"@,
    };
    let with_ff = match rfind_char(main, '.') {
        Some(d) => if d + 1 < main.len() && is_digit(main[d + 1]) {
            base + ".FF"@
        } else {
            base
        },
        None => base,
    };
    if has_tz {
        with_ff + " TZH:TZM"@
    } else {
        with_ff
    }
}

/// How one raw row value is rendered for its column's declared type.
pub open spec fn spec_format_literal(data_type: Seq<char>, raw: Seq<char>) -> Seq<char> {
    let upper = upper_seq(data_type);
    if spec_is_numeric_data_type(upper) {
        raw
    } else if spec_is_binary_data_type(upper) {
        "HEXTORAW('"@ + strip_prefix_all(strip_prefix_all(raw, "0x"@), "0X"@) + "')"@
    } else if spec_is_date_data_type(upper) {
        "TO_DATE('"@ + spec_escape_literal(raw) + "','"@ + (if raw.contains(':') {
            "YYYY-MM-DD HH24:MI:SS"@
        } else {
            "YYYY-MM-DD"@
        }) + "')"@
    } else if spec_is_timestamp_data_type(upper) {
        let normalized = spec_normalize_iso8601(trim_spec(raw));
        let format = spec_timestamp_value_format(normalized);
        if has_substring(upper, "TIME ZONE"@) || spec_has_timezone_offset(normalized) {
            "TO_TIMESTAMP_TZ('"@ + spec_escape_literal(normalized) + "','"@ + format + "')"@
        } else {
            "TO_TIMESTAMP('"@ + spec_escape_literal(normalized) + "','"@ + format + "')"@
        }
    } else {
        "'"@ + spec_escape_literal(raw) + "'"@
    }
}

/// Renders one raw row value for its column's declared type: numeric and
/// unknown types pass through (the latter quoted), binary data is wrapped
/// in a hex conversion, dates and timestamps in explicit conversion calls.
pub fn format_literal(data_type: &str, raw: &str) -> (r: String)
    ensures
        r@ == spec_format_literal(data_type@, raw@),
{
    if is_numeric_type(data_type) {
        let v = chars_of(raw);
        return string_of(&v);
    }
    if is_binary_type(data_type) {
        let v = chars_of(raw);
        let t1 = strip_prefix_repeated(&v, "0x");
        let t2 = strip_prefix_repeated(&t1, "0X");
        let mut s = String::from_str("HEXTORAW('");
        let body = string_of(&t2);
        s.append(body.as_str());
        s.append("')");
        return s;
    }
    if is_date_type(data_type) {
        let v = chars_of(raw);
        let mut s = String::from_str("TO_DATE('");
        let esc = escape_single_quotes(raw);
        s.append(esc.as_str());
        s.append("','");
        if contains_char(&v, ':') {
            s.append("YYYY-MM-DD HH24:MI:SS");
        } else {
            s.append("YYYY-MM-DD");
        }
        s.append("')");
        return s;
    }
    if is_timestamp_type(data_type) {
        let v = chars_of(raw);
        let trimmed = trim_vec(&v);
        let trimmed_s = string_of(&trimmed);
        let normalized = normalize_iso8601_timestamp(trimmed_s.as_str());
        let nv = chars_of(normalized.as_str());
        let has_tz = has_timezone_offset(normalized.as_str());
        let main: Vec<char> = if has_tz {
            match rfind_sign_in(&nv) {
                Some(p) => {
                    let prefix = subvec(&nv, 0, p);
                    proof {
                        assert(nv@.subrange(0, p as int) =~= nv@.take(p as int));
                    }
                    if contains_char(&prefix, ':') {
                        prefix
                    } else {
                        let whole = subvec(&nv, 0, nv.len());
                        proof {
                            assert(nv@.subrange(0, nv@.len() as int) =~= nv@);
                        }
                        whole
                    }
                },
                None => {
                    let whole = subvec(&nv, 0, nv.len());
                    proof {
                        assert(nv@.subrange(0, nv@.len() as int) =~= nv@);
                    }
                    whole
                },
            }
        } else {
            let whole = subvec(&nv, 0, nv.len());
            proof {
                assert(nv@.subrange(0, nv@.len() as int) =~= nv@);
            }
            whole
        };
        proof {
            assert(main@ == spec_timestamp_main_part(nv@));
        }
        let mut format = String::from_str("YYYY-MM-DD");
        match find_in(&main, ' ') {
            Some(sp) => {
                let time_part = subvec(&main, sp + 1, main.len());
                proof {
                    assert(main@.subrange(sp + 1, main@.len() as int) =~= main@.skip(sp + 1));
                }
                let colons = crate::text::count_char_in(&time_part, ':');
                if colons >= 2 {
                    format = String::from_str("YYYY-MM-DD HH24:MI:SS");
                } else if colons == 1 {
                    format = String::from_str("YYYY-MM-DD HH24:MI");
                }
            },
            None => {},
        }
        match rfind_in(&main, '.') {
            Some(d) => {
                if d + 1 < main.len() && is_digit_char(main[d + 1]) {
                    format.append(".FF");
                }
            },
            None => {},
        }
        if has_tz {
            format.append(" TZH:TZM");
        }
        proof {
            assert(format@ == spec_timestamp_value_format(nv@));
        }
        let dt_chars = chars_of(data_type);
        let dt_upper = upper_vec(&dt_chars);
        let mut s = if contains_lit(&dt_upper, "TIME ZONE") || has_tz {
            String::from_str("TO_TIMESTAMP_TZ('")
        } else {
            String::from_str("TO_TIMESTAMP('")
        };
        let esc = escape_single_quotes(normalized.as_str());
        s.append(esc.as_str());
        s.append("','");
        s.append(format.as_str());
        s.append("')");
        return s;
    }
    let mut s = String::from_str("'");
    let esc = escape_single_quotes(raw);
    s.append(esc.as_str());
    s.append("'");
    s
}

} // verus!

verus! {

/// How one nullable raw value is rendered for its column.
pub open spec fn spec_render_value(dt: Seq<char>, val: Option<Seq<char>>) -> Seq<char> {
    match val {
        None => "NULL"@,
        Some(v) => spec_format_literal(dt, v),
    }
}

/// One row tuple: the rendered values, comma-separated, in parentheses.
pub open spec fn spec_render_row(cols: Seq<ColumnView>, row: Seq<Option<Seq<char>>>) -> Seq<char> {
    "("@ + seq_join(
        Seq::new(cols.len(), |i: int| spec_render_value(cols[i].data_type, row[i])),
        ", "@,
    ) + ")"@
}

/// Renders one row of raw values against the column list.
pub fn render_row(columns: &Vec<Column>, row: &Vec<Option<String>>) -> (r: String)
    requires
        row@.len() == columns@.len(),
    ensures
        r@ == spec_render_row(columns.deep_view(), row.deep_view()),
{
    let ghost cols = columns.deep_view();
    let ghost vals = row.deep_view();
    let mut rendered: Vec<String> = Vec::new();
    let mut i: usize = 0;
    while i < columns.len()
        invariant
            cols == columns.deep_view(),
            vals == row.deep_view(),
            cols.len() == columns@.len(),
            vals.len() == columns@.len(),
            row@.len() == columns@.len(),
            i <= columns@.len(),
            rendered@.len() == i,
            forall|j: int|
                0 <= j < i ==> #[trigger] rendered@[j]@ == spec_render_value(
                    cols[j].data_type,
                    vals[j],
                ),
        decreases columns@.len() - i,
    {
        proof {
            assert(cols[i as int] == columns@[i as int]@);
            assert(vals[i as int] == row@[i as int].deep_view());
        }
        let formatted = match &row[i] {
            None => String::from_str("NULL"),
            Some(v) => format_literal(columns[i].data_type.as_str(), v.as_str()),
        };
        rendered.push(formatted);
        i = i + 1;
    }
    let joined = join_strings(&rendered, ", ");
    proof {
        assert(rendered.deep_view() =~~= Seq::new(
            cols.len(),
            |j: int| spec_render_value(cols[j].data_type, vals[j]),
        )) by {
            assert(forall|j: int|
                0 <= j < rendered@.len() ==> #[trigger] rendered.deep_view()[j] == rendered@[j]@);
        }
    }
    let mut r = String::from_str("(");
    r.append(joined.as_str());
    r.append(")");
    r
}

/// One multi-row INSERT statement over an already-joined column list and
/// already-rendered row tuples.
pub open spec fn spec_batch_insert(
    table: Seq<char>,
    col_list: Seq<char>,
    batch_rows: Seq<Seq<char>>,
) -> Seq<char> {
    "INSERT INTO "@ + table + " ("@ + col_list + ") VALUES\n"@ + seq_join(batch_rows, ",\n"@)
        + ";\n"@
}

/// The whole INSERT text: rendered rows taken `b` at a time, one statement
/// per batch.
pub open spec fn spec_inserts_text(
    table: Seq<char>,
    col_list: Seq<char>,
    rendered: Seq<Seq<char>>,
    b: int,
) -> Seq<char>
    decreases rendered.len(),
{
    if b <= 0 || rendered.len() == 0 {
        Seq::empty()
    } else if rendered.len() <= b {
        spec_batch_insert(table, col_list, rendered)
    } else {
        spec_batch_insert(table, col_list, rendered.take(b)) + spec_inserts_text(
            table,
            col_list,
            rendered.skip(b),
            b,
        )
    }
}

/// How many batches (and so how many INSERT statements) `n` rows produce
/// at batch size `b`.
pub open spec fn spec_batch_count(n: int, b: int) -> int {
    (n + b - 1) / b
}

/// Copies out `v[from..to]` of a string vector.
fn subvec_strings(v: &Vec<String>, from: usize, to: usize) -> (r: Vec<String>)
    requires
        from <= to <= v@.len(),
    ensures
        r.deep_view() == v.deep_view().subrange(from as int, to as int),
{
    let mut r: Vec<String> = Vec::new();
    let mut i: usize = from;
    while i < to
        invariant
            from <= i <= to <= v@.len(),
            r@.len() == i - from,
            forall|j: int| 0 <= j < i - from ==> #[trigger] r@[j]@ == v@[from + j]@,
        decreases to - i,
    {
        r.push(v[i].clone());
        i = i + 1;
    }
    proof {
        assert(r.deep_view() =~~= v.deep_view().subrange(from as int, to as int)) by {
            assert(forall|j: int|
                0 <= j < r@.len() ==> #[trigger] r.deep_view()[j] == r@[j]@);
            assert(forall|j: int|
                0 <= j < v@.len() ==> #[trigger] v.deep_view()[j] == v@[j]@);
        }
    }
    r
}

/// Emits the batched INSERT statements for one table's rows and reports how
/// many rows were written.
pub fn export_table_data(
    target_ident: &String,
    column_idents: &Vec<String>,
    columns: &Vec<Column>,
    rows: &Vec<Vec<Option<String>>>,
    batch_size: usize,
) -> (r: (String, usize))
    requires
        batch_size >= 1,
        forall|i: int| 0 <= i < rows@.len() ==> #[trigger] rows@[i]@.len() == columns@.len(),
    ensures
        r.0@ == spec_inserts_text(
            target_ident@,
            seq_join(column_idents.deep_view(), ", "@),
            Seq::new(
                rows.deep_view().len(),
                |i: int| spec_render_row(columns.deep_view(), rows.deep_view()[i]),
            ),
            batch_size as int,
        ),
        r.1 == rows@.len(),
{
    let col_list = join_strings(column_idents, ", ");
    let ghost cols = columns.deep_view();
    let ghost rendered_spec = Seq::new(
        rows.deep_view().len(),
        |i: int| spec_render_row(cols, rows.deep_view()[i]),
    );
    let mut rendered: Vec<String> = Vec::new();
    let mut i: usize = 0;
    while i < rows.len()
        invariant
            cols == columns.deep_view(),
            rendered_spec == Seq::new(
                rows.deep_view().len(),
                |k: int| spec_render_row(cols, rows.deep_view()[k]),
            ),
            rows.deep_view().len() == rows@.len(),
            forall|k: int| 0 <= k < rows@.len() ==> #[trigger] rows@[k]@.len() == columns@.len(),
            i <= rows@.len(),
            rendered@.len() == i,
            forall|j: int| 0 <= j < i ==> #[trigger] rendered@[j]@ == rendered_spec[j],
        decreases rows@.len() - i,
    {
        proof {
            assert(rows@[i as int].deep_view() == rows.deep_view()[i as int]);
        }
        let line = render_row(columns, &rows[i]);
        rendered.push(line);
        i = i + 1;
    }
    let mut text = String::new();
    let mut start: usize = 0;
    let ghost rdv = rendered.deep_view();
    proof {
        assert(rdv =~~= rendered_spec) by {
            assert(forall|j: int|
                0 <= j < rendered@.len() ==> #[trigger] rendered.deep_view()[j] == rendered@[j]@);
        }
        assert(rdv.skip(0) =~= rdv);
    }
    let n = rendered.len();
    while start < n
        invariant
            rdv == rendered.deep_view(),
            n == rendered@.len(),
            n == rdv.len(),
            batch_size >= 1,
            start <= n,
            spec_inserts_text(target_ident@, col_list@, rdv, batch_size as int) == text@
                + spec_inserts_text(
                target_ident@,
                col_list@,
                rdv.skip(start as int),
                batch_size as int,
            ),
        decreases n - start,
    {
        let cnt = if n - start < batch_size {
            n - start
        } else {
            batch_size
        };
        let ghost rest = rdv.skip(start as int);
        let batch = subvec_strings(&rendered, start, start + cnt);
        proof {
            assert(batch.deep_view() =~= rdv.subrange(start as int, start + cnt));
            if rest.len() <= batch_size {
                assert(rdv.subrange(start as int, start + cnt) =~= rest);
            } else {
                assert(rdv.subrange(start as int, start + cnt) =~= rest.take(batch_size as int));
                assert(rest.skip(batch_size as int) =~= rdv.skip(start + cnt));
            }
        }
        let joined = join_strings(&batch, ",\n");
        text.append("INSERT INTO ");
        text.append(target_ident.as_str());
        text.append(" (");
        text.append(col_list.as_str());
        text.append(") VALUES\n");
        text.append(joined.as_str());
        text.append(";\n");
        start = start + cnt;
    }
    proof {
        assert(rdv.skip(n as int) =~= Seq::<Seq<char>>::empty());
        assert(text@ + Seq::<char>::empty() =~= text@);
    }
    (text, n)
}

/// Batching yields exactly one INSERT statement per started batch: `n` rows
/// at batch size `b` give `(n + b - 1) / b` statements, each covering at
/// most `b` consecutive rows.
pub proof fn lemma_insert_statement_count(
    table: Seq<char>,
    col_list: Seq<char>,
    rendered: Seq<Seq<char>>,
    b: int,
)
    requires
        b >= 1,
    ensures
        spec_insert_statements(table, col_list, rendered, b).len() == spec_batch_count(
            rendered.len() as int,
            b,
        ) || rendered.len() == 0,
        rendered.len() == 0 ==> spec_insert_statements(table, col_list, rendered, b).len() == 0,
    decreases rendered.len(),
{
    let n = rendered.len() as int;
    if n == 0 {
    } else if n <= b {
        assert((n + b - 1) / b == 1) by (nonlinear_arith)
            requires
                1 <= n <= b,
        ;
    } else {
        lemma_insert_statement_count(table, col_list, rendered.skip(b), b);
        assert(rendered.skip(b).len() == n - b);
        assert((n + b - 1) / b == 1 + (n - b + b - 1) / b) by (nonlinear_arith)
            requires
                n > b >= 1,
        ;
    }
}

/// The list of INSERT statements, one per batch.
pub open spec fn spec_insert_statements(
    table: Seq<char>,
    col_list: Seq<char>,
    rendered: Seq<Seq<char>>,
    b: int,
) -> Seq<Seq<char>>
    decreases rendered.len(),
{
    if b <= 0 || rendered.len() == 0 {
        Seq::empty()
    } else if rendered.len() <= b {
        seq![spec_batch_insert(table, col_list, rendered)]
    } else {
        seq![spec_batch_insert(table, col_list, rendered.take(b))] + spec_insert_statements(
            table,
            col_list,
            rendered.skip(b),
            b,
        )
    }
}

} // verus!

verus! {

/// Everything the data exporter needs for one table: its (unqualified)
/// name, introspected details, fetched rows as nullable text values, and a
/// best-effort row count for the header comment.
pub struct TableDataInput {
    pub table: String,
    pub details: TableDetails,
    pub rows: Vec<Vec<Option<String>>>,
    pub row_count: Option<i64>,
}

#[verifier::ext_equal]
pub struct TableDataInputView {
    pub table: Seq<char>,
    pub details: TableDetailsView,
    pub rows: Seq<Seq<Option<Seq<char>>>>,
    pub row_count: Option<i64>,
}

impl View for TableDataInput {
    type V = TableDataInputView;

    open spec fn view(&self) -> TableDataInputView {
        TableDataInputView {
            table: self.table@,
            details: self.details@,
            rows: self.rows.deep_view(),
            row_count: self.row_count,
        }
    }
}

impl DeepView for TableDataInput {
    type V = TableDataInputView;

    open spec fn deep_view(&self) -> TableDataInputView {
        self.view()
    }
}

/// Whether any column is an identity column.
pub open spec fn spec_has_identity(cols: Seq<ColumnView>) -> bool {
    exists|i: int| 0 <= i < cols.len() && (#[trigger] cols[i]).identity
}

/// Checks whether the table has an identity column.
pub fn has_identity_column(columns: &Vec<Column>) -> (r: bool)
    ensures
        r == spec_has_identity(columns.deep_view()),
{
    let mut i: usize = 0;
    while i < columns.len()
        invariant
            i <= columns@.len(),
            forall|j: int| 0 <= j < i ==> !(#[trigger] columns.deep_view()[j]).identity,
        decreases columns@.len() - i,
    {
        if columns[i].identity {
            proof {
                assert(columns.deep_view()[i as int].identity);
            }
            return true;
        }
        i = i + 1;
    }
    false
}

/// The quoted identifier of each column, in order.
pub open spec fn spec_column_idents(cols: Seq<ColumnView>) -> Seq<Seq<char>> {
    Seq::new(cols.len(), |i: int| spec_quote_identifier(cols[i].name))
}

/// Quotes every column name of the table, in order.
pub fn quoted_column_idents(columns: &Vec<Column>) -> (r: Vec<String>)
    ensures
        r.deep_view() == spec_column_idents(columns.deep_view()),
{
    let ghost cols = columns.deep_view();
    let mut r: Vec<String> = Vec::new();
    let mut i: usize = 0;
    while i < columns.len()
        invariant
            cols == columns.deep_view(),
            cols.len() == columns@.len(),
            i <= columns@.len(),
            r@.len() == i,
            forall|j: int| 0 <= j < i ==> #[trigger] r@[j]@ == spec_quote_identifier(cols[j].name),
        decreases columns@.len() - i,
    {
        proof {
            assert(cols[i as int] == columns@[i as int]@);
        }
        r.push(quote_identifier(columns[i].name.as_str()));
        i = i + 1;
    }
    proof {
        assert(r.deep_view() =~~= spec_column_idents(cols)) by {
            assert(forall|j: int| 0 <= j < r@.len() ==> #[trigger] r.deep_view()[j] == r@[j]@);
        }
    }
    r
}

/// The quoted `SCHEMA.TABLE` identifier, both parts upper-cased.
pub open spec fn spec_qualified_ident(schema: Seq<char>, table: Seq<char>) -> Seq<char> {
    spec_quote_identifier(upper_seq(schema) + "."@ + upper_seq(table))
}

/// Quotes `SCHEMA.TABLE` with both parts upper-cased to match catalog case
/// folding.
pub fn qualified_ident(schema: &str, table: &str) -> (r: String)
    ensures
        r@ == spec_qualified_ident(schema@, table@),
{
    let sv = chars_of(schema);
    let su = upper_vec(&sv);
    let tv = chars_of(table);
    let tu = upper_vec(&tv);
    let mut q = string_of(&su);
    q.append(".");
    let ts = string_of(&tu);
    q.append(ts.as_str());
    proof {
        assert("."@ =~= seq!['.']) by {
            reveal_strlit(".");
        }
        assert(q@ =~= upper_seq(schema@) + "."@ + upper_seq(table@));
    }
    quote_identifier(q.as_str())
}

/// The SELECT issued against the source table, with an explicit column
/// list so row values line up with the target's column order.
pub open spec fn spec_table_data_query(
    source: Seq<char>,
    table: Seq<char>,
    cols: Seq<ColumnView>,
) -> Seq<char> {
    "SELECT "@ + seq_join(spec_column_idents(cols), ", "@) + " FROM "@ + spec_qualified_ident(
        source,
        table,
    )
}

/// Builds the row query for one table.
pub fn table_data_query(source_schema: &str, table: &str, details: &TableDetails) -> (r: String)
    ensures
        r@ == spec_table_data_query(source_schema@, table@, details@.columns),
{
    let idents = quoted_column_idents(&details.columns);
    let list = join_strings(&idents, ", ");
    let mut q = String::from_str("SELECT ");
    q.append(list.as_str());
    q.append(" FROM ");
    let src = qualified_ident(source_schema, table);
    q.append(src.as_str());
    q
}

/// One table's block in the data script: a comment header, a TRUNCATE, the
/// batched INSERTs, and identity-insert bracketing when the table has an
/// identity column.
pub open spec fn spec_table_data_section(
    target: Seq<char>,
    input: TableDataInputView,
    b: int,
) -> Seq<char> {
    let qualified = spec_qualified_ident(target, input.table);
    let cols = input.details.columns;
    let header = "-- Data for table: "@ + upper_seq(target) + "."@ + upper_seq(input.table) + (
    match input.row_count {
        Some(c) => " ("@ + dec_int(c as int) + " rows)"@,
        None => " (rows unknown)"@,
    }) + "\n"@ + "TRUNCATE TABLE "@ + qualified + ";\n"@;
    let inserts = spec_inserts_text(
        qualified,
        seq_join(spec_column_idents(cols), ", "@),
        Seq::new(input.rows.len(), |i: int| spec_render_row(cols, input.rows[i])),
        b,
    );
    if spec_has_identity(cols) {
        header + "SET IDENTITY_INSERT "@ + qualified + " ON;\n"@ + inserts
            + "SET IDENTITY_INSERT "@ + qualified + " OFF;\n"@
    } else {
        header + inserts
    }
}

/// Renders one table's data section and reports how many rows it holds.
pub fn export_table_section(target_schema: &str, input: &TableDataInput, batch_size: usize) -> (r:
    (String, usize))
    requires
        batch_size >= 1,
        forall|i: int|
            0 <= i < input.rows@.len() ==> (#[trigger] input.rows@[i])@.len()
                == input.details.columns@.len(),
    ensures
        r.0@ == spec_table_data_section(target_schema@, input@, batch_size as int),
        r.1 == input.rows@.len(),
{
    let qualified = qualified_ident(target_schema, input.table.as_str());
    let mut text = String::from_str("-- Data for table: ");
    let tsv = chars_of(target_schema);
    let tsu = upper_vec(&tsv);
    let tus = string_of(&tsu);
    text.append(tus.as_str());
    text.append(".");
    let tbv = chars_of(input.table.as_str());
    let tbu = upper_vec(&tbv);
    let tbs = string_of(&tbu);
    text.append(tbs.as_str());
    match &input.row_count {
        Some(c) => {
            text.append(" (");
            let n = i64_to_string(*c);
            text.append(n.as_str());
            text.append(" rows)");
        },
        None => {
            text.append(" (rows unknown)");
        },
    }
    text.append("\n");
    text.append("TRUNCATE TABLE ");
    text.append(qualified.as_str());
    text.append(";\n");
    let has_identity = has_identity_column(&input.details.columns);
    if has_identity {
        text.append("SET IDENTITY_INSERT ");
        text.append(qualified.as_str());
        text.append(" ON;\n");
    }
    let idents = quoted_column_idents(&input.details.columns);
    let (inserts, count) = export_table_data(
        &qualified,
        &idents,
        &input.details.columns,
        &input.rows,
        batch_size,
    );
    text.append(inserts.as_str());
    if has_identity {
        text.append("SET IDENTITY_INSERT ");
        text.append(qualified.as_str());
        text.append(" OFF;\n");
    }
    proof {
        assert("."@ =~= seq!['.']) by {
            reveal_strlit(".");
        }
        assert(text@ =~= spec_table_data_section(target_schema@, input@, batch_size as int));
    }
    (text, count)
}

} // verus!

verus! {

/// The data script's header comments.
pub open spec fn spec_data_header(
    table_count: int,
    include_row_counts: bool,
    total_estimate: int,
    timestamp: Seq<char>,
    has_sequences: bool,
) -> Seq<char> {
    "-- DM8 Data Export\n"@ + "-- Tables: "@ + dec_int(table_count) + "\n"@ + (
    if include_row_counts {
        "-- Rows (estimated): "@ + dec_int(total_estimate) + "\n"@
    } else {
        "-- Rows (estimated): skipped (per request)\n"@
    }) + "-- Generated at: "@ + timestamp + "\n"@
        + "-- Warning: This script truncates tables before inserting data.\n"@ + (
    if has_sequences {
        "-- Sequences will be reset to START values before inserts\n"@
    } else {
        Seq::empty()
    }) + "\n"@
}

/// One `ALTER SEQUENCE ... CURRENT VALUE` statement per sequence, restoring
/// each to its captured start value (1 when unknown).
pub open spec fn spec_sequence_reset_lines(target: Seq<char>, seqs: Seq<SequenceView>) -> Seq<char>
    decreases seqs.len(),
{
    if seqs.len() == 0 {
        Seq::empty()
    } else {
        spec_sequence_reset_lines(target, seqs.drop_last()) + "ALTER SEQUENCE "@
            + spec_quote_identifier(upper_seq(target) + "."@ + seqs.last().name)
            + " CURRENT VALUE "@ + dec_int(
            match seqs.last().start_with {
                Some(v) => v as int,
                None => 1,
            },
        ) + ";\n"@
    }
}

/// The sequence-reset block, empty when there are no sequences.
pub open spec fn spec_sequence_resets(target: Seq<char>, seqs: Seq<SequenceView>) -> Seq<char> {
    if seqs.len() == 0 {
        Seq::empty()
    } else {
        "-- Reset sequences (DM8 uses CURRENT VALUE, not RESTART WITH)\n"@
            + spec_sequence_reset_lines(target, seqs) + "\n"@
    }
}

/// All table sections, separated by one blank line.
pub open spec fn spec_data_sections(
    target: Seq<char>,
    inputs: Seq<TableDataInputView>,
    b: int,
) -> Seq<char>
    decreases inputs.len(),
{
    if inputs.len() == 0 {
        Seq::empty()
    } else if inputs.len() == 1 {
        spec_table_data_section(target, inputs[0], b)
    } else {
        spec_data_sections(target, inputs.drop_last(), b) + "\n"@ + spec_table_data_section(
            target,
            inputs.last(),
            b,
        )
    }
}

/// The header's aggregate row estimate: the sum of the known counts.
pub open spec fn spec_total_estimate(inputs: Seq<TableDataInputView>) -> int
    decreases inputs.len(),
{
    if inputs.len() == 0 {
        0
    } else {
        spec_total_estimate(inputs.drop_last()) + match inputs.last().row_count {
            Some(c) => c as int,
            None => 0,
        }
    }
}

/// How many rows the script inserts in total.
pub open spec fn spec_total_rows(inputs: Seq<TableDataInputView>) -> int
    decreases inputs.len(),
{
    if inputs.len() == 0 {
        0
    } else {
        spec_total_rows(inputs.drop_last()) + inputs.last().rows.len()
    }
}

proof fn lemma_total_rows_bounds(inputs: Seq<TableDataInputView>, i: int)
    requires
        0 <= i <= inputs.len(),
    ensures
        0 <= spec_total_rows(inputs.take(i)) <= spec_total_rows(inputs),
    decreases inputs.len() + inputs.len() - i,
{
    if inputs.len() == 0 {
        assert(inputs.take(i) =~= inputs);
    } else if i == inputs.len() {
        assert(inputs.take(i) =~= inputs);
        lemma_total_rows_bounds(inputs.drop_last(), inputs.len() - 1);
    } else {
        lemma_total_rows_bounds(inputs.drop_last(), i);
        assert(inputs.drop_last().take(i) =~= inputs.take(i));
    }
}

proof fn lemma_total_estimate_bounds(inputs: Seq<TableDataInputView>, i: int)
    requires
        0 <= i <= inputs.len(),
        forall|j: int|
            0 <= j < inputs.len() ==> match (#[trigger] inputs[j]).row_count {
                Some(c) => c >= 0,
                None => true,
            },
    ensures
        0 <= spec_total_estimate(inputs.take(i)) <= spec_total_estimate(inputs),
    decreases inputs.len() + inputs.len() - i,
{
    if inputs.len() == 0 {
        assert(inputs.take(i) =~= inputs);
    } else if i == inputs.len() {
        assert(inputs.take(i) =~= inputs);
        lemma_total_estimate_bounds(inputs.drop_last(), inputs.len() - 1);
    } else {
        lemma_total_estimate_bounds(inputs.drop_last(), i);
        assert(inputs.drop_last().take(i) =~= inputs.take(i));
    }
}

/// Renders the whole data-load script: header, sequence resets, then one
/// truncate-and-insert section per table, and reports the total row count.
pub fn export_schema_data(
    target_schema: &str,
    inputs: &Vec<TableDataInput>,
    sequences: &Vec<Sequence>,
    batch_size: usize,
    include_row_counts: bool,
    timestamp: &str,
) -> (r: (String, usize))
    requires
        batch_size >= 1,
        forall|t: int, i: int|
            0 <= t < inputs@.len() && 0 <= i < (#[trigger] inputs@[t]).rows@.len() ==> (
            #[trigger] inputs@[t].rows@[i])@.len() == inputs@[t].details.columns@.len(),
        forall|t: int|
            0 <= t < inputs@.len() ==> match (#[trigger] inputs@[t]).row_count {
                Some(c) => c >= 0,
                None => true,
            },
        spec_total_estimate(inputs.deep_view()) <= i64::MAX,
        spec_total_rows(inputs.deep_view()) <= usize::MAX,
    ensures
        r.0@ == spec_data_header(
            inputs@.len() as int,
            include_row_counts,
            spec_total_estimate(inputs.deep_view()),
            timestamp@,
            sequences@.len() > 0,
        ) + spec_sequence_resets(target_schema@, sequences.deep_view()) + spec_data_sections(
            target_schema@,
            inputs.deep_view(),
            batch_size as int,
        ),
        r.1 == spec_total_rows(inputs.deep_view()),
{
    let ghost dv = inputs.deep_view();
    let mut total_estimate: i64 = 0;
    let mut i: usize = 0;
    while i < inputs.len()
        invariant
            dv == inputs.deep_view(),
            dv.len() == inputs@.len(),
            i <= inputs@.len(),
            forall|t: int|
                0 <= t < dv.len() ==> match (#[trigger] dv[t]).row_count {
                    Some(c) => c >= 0,
                    None => true,
                },
            spec_total_estimate(dv) <= i64::MAX,
            total_estimate == spec_total_estimate(dv.take(i as int)),
            0 <= total_estimate,
        decreases inputs@.len() - i,
    {
        proof {
            assert(dv.take(i + 1).drop_last() =~= dv.take(i as int));
            assert(dv.take(i + 1).last() == dv[i as int]);
            lemma_total_estimate_bounds(dv, i + 1);
        }
        match &inputs[i].row_count {
            Some(c) => {
                proof {
                    assert(dv[i as int].row_count == inputs@[i as int].row_count);
                }
                total_estimate = total_estimate + *c;
            },
            None => {},
        }
        i = i + 1;
    }
    proof {
        assert(dv.take(dv.len() as int) =~= dv);
    }
    let mut text = String::from_str("-- DM8 Data Export\n");
    text.append("-- Tables: ");
    let n_tables = usize_to_string(inputs.len());
    text.append(n_tables.as_str());
    text.append("\n");
    if include_row_counts {
        text.append("-- Rows (estimated): ");
        let est = i64_to_string(total_estimate);
        text.append(est.as_str());
        text.append("\n");
    } else {
        text.append("-- Rows (estimated): skipped (per request)\n");
    }
    text.append("-- Generated at: ");
    text.append(timestamp);
    text.append("\n");
    text.append("-- Warning: This script truncates tables before inserting data.\n");
    if sequences.len() > 0 {
        text.append("-- Sequences will be reset to START values before inserts\n");
    }
    text.append("\n");
    if sequences.len() > 0 {
        text.append("-- Reset sequences (DM8 uses CURRENT VALUE, not RESTART WITH)\n");
        let ghost sv = sequences.deep_view();
        let mut k: usize = 0;
        let ghost base = text@;
        while k < sequences.len()
            invariant
                sv == sequences.deep_view(),
                sv.len() == sequences@.len(),
                k <= sequences@.len(),
                text@ == base + spec_sequence_reset_lines(target_schema@, sv.take(k as int)),
            decreases sequences@.len() - k,
        {
            proof {
                assert(sv.take(k + 1).drop_last() =~= sv.take(k as int));
                assert(sv.take(k + 1).last() == sv[k as int]);
                assert(sv[k as int] == sequences@[k as int]@);
            }
            text.append("ALTER SEQUENCE ");
            let tv = chars_of(target_schema);
            let tu = upper_vec(&tv);
            let mut q = string_of(&tu);
            q.append(".");
            q.append(sequences[k].name.as_str());
            proof {
                assert("."@ =~= seq!['.']) by {
                    reveal_strlit(".");
                }
                assert(q@ =~= upper_seq(target_schema@) + "."@ + sv[k as int].name);
            }
            let ident = quote_identifier(q.as_str());
            text.append(ident.as_str());
            text.append(" CURRENT VALUE ");
            let start: i64 = match &sequences[k].start_with {
                Some(v) => *v,
                None => 1,
            };
            let start_s = i64_to_string(start);
            text.append(start_s.as_str());
            text.append(";\n");
            k = k + 1;
        }
        proof {
            assert(sv.take(sv.len() as int) =~= sv);
        }
        text.append("\n");
    }
    let mut exported_total: usize = 0;
    let mut t: usize = 0;
    let ghost pre_sections = text@;
    while t < inputs.len()
        invariant
            dv == inputs.deep_view(),
            dv.len() == inputs@.len(),
            batch_size >= 1,
            t <= inputs@.len(),
            forall|u: int, i: int|
                0 <= u < inputs@.len() && 0 <= i < (#[trigger] inputs@[u]).rows@.len() ==> (
                #[trigger] inputs@[u].rows@[i])@.len() == inputs@[u].details.columns@.len(),
            spec_total_rows(dv) <= usize::MAX,
            text@ == pre_sections + spec_data_sections(
                target_schema@,
                dv.take(t as int),
                batch_size as int,
            ),
            exported_total == spec_total_rows(dv.take(t as int)),
            0 <= exported_total,
        decreases inputs@.len() - t,
    {
        proof {
            assert(dv.take(t + 1).drop_last() =~= dv.take(t as int));
            assert(dv.take(t + 1).last() == dv[t as int]);
            assert(dv[t as int] == inputs@[t as int]@);
            lemma_total_rows_bounds(dv, t + 1);
        }
        if t > 0 {
            text.append("\n");
        }
        let (section, count) = export_table_section(target_schema, &inputs[t], batch_size);
        text.append(section.as_str());
        proof {
            assert(inputs@[t as int]@.rows.len() == inputs@[t as int].rows@.len());
        }
        exported_total = exported_total + count;
        t = t + 1;
    }
    proof {
        assert(dv.take(dv.len() as int) =~= dv);
    }
    (text, exported_total)
}

} // verus!
