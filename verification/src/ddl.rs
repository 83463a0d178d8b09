//! The DDL generator: CREATE TABLE bodies, constraints, deduplicated
//! indexes, sequences and triggers, rendered as idempotent SQL text.

use vstd::prelude::*;
use crate::text::{
    chars_of, contains_char, contains_lit, dec_int, eq_ci, eq_str, has_prefix, has_substring,
    i64_to_string, is_alpha, is_alpha_char, is_digit, is_digit_char, is_hex_digit,
    is_hex_digit_char, join_strings, seq_join, split_on, starts_with_lit, string_of, subvec, trim_spec,
    trim_vec, upper_seq, upper_vec, upper_char, is_word_char, is_word_char_exec, to_upper_char,
    trim_start_spec, trim_end_spec, count_char, split_lines,
};
use crate::literal::{
    escape_single_quotes, build_timestamp_format, has_timezone, is_date_literal,
    is_numeric_literal, is_string_type, is_numeric_type, is_binary_type, is_timestamp_literal,
    looks_like_expression, normalize_iso_timestamp, quote_identifier, spec_build_timestamp_format,
    spec_escape_literal, spec_has_timezone, spec_is_date_literal, spec_is_numeric_literal,
    spec_is_string_type, spec_is_numeric_type, spec_is_binary_type, spec_is_timestamp_literal,
    spec_looks_like_expression, spec_normalize_iso_timestamp, spec_quote_identifier,
};
use crate::model::{Column, ColumnView, CheckConstraintView, ForeignKeyView, UniqueConstraintView};

verus! {

/// How generated trigger statements are terminated: per-statement for an
/// IDE that runs statements one by one, script mode with a `/` delimiter
/// line, or script mode with triggers routed to a separate file.
#[derive(Debug, Clone, Copy, PartialEq, Eq, Structural)]
pub enum TriggerTerminator {
    DataGrip,
    Script,
    DataGripScript,
}

/// A keyword hit: the expression is the keyword alone or the keyword
/// followed by a space or an arithmetic operator.
pub open spec fn spec_kw_match(eu: Seq<char>, kw: Seq<char>) -> bool {
    has_prefix(eu, kw) && (eu.len() == kw.len() || eu[kw.len() as int] == ' ' || eu[kw.len() as int]
        == '+' || eu[kw.len() as int] == '-' || eu[kw.len() as int] == '*' || eu[kw.len() as int]
        == '/')
}

fn kw_match_exec(eu: &Vec<char>, kw: &str) -> (r: bool)
    ensures
        r == spec_kw_match(eu@, kw@),
{
    if !starts_with_lit(eu, kw) {
        return false;
    }
    let klen = kw.unicode_len();
    if eu.len() == klen {
        return true;
    }
    let c = eu[klen];
    c == ' ' || c == '+' || c == '-' || c == '*' || c == '/'
}

/// SQL keywords (upper-cased input) that are never quoted when they stand
/// as a default value, alone or followed by an operator.
pub open spec fn spec_keyword_passthrough(eu: Seq<char>) -> bool {
    spec_kw_match(eu, "SYSDATE"@) || spec_kw_match(eu, "SYSTIMESTAMP"@) || spec_kw_match(
        eu,
        "CURRENT_DATE"@,
    ) || spec_kw_match(eu, "CURRENT_TIME"@) || spec_kw_match(eu, "CURRENT_TIMESTAMP"@)
        || spec_kw_match(eu, "LOCALTIMESTAMP"@) || spec_kw_match(eu, "LOCALTIME"@) || spec_kw_match(
        eu,
        "USER"@,
    ) || spec_kw_match(eu, "CURRENT_USER"@) || spec_kw_match(eu, "CURRENT USER"@) || spec_kw_match(
        eu,
        "SESSION_USER"@,
    ) || spec_kw_match(eu, "SESSION USER"@) || spec_kw_match(eu, "CURRENT_SCHEMA"@)
        || spec_kw_match(eu, "CURRENT SCHEMA"@) || spec_kw_match(eu, "CURRENT_ROLE"@)
        || spec_kw_match(eu, "CURRENT ROLE"@) || spec_kw_match(eu, "DBTIMEZONE"@) || spec_kw_match(
        eu,
        "SESSIONTIMEZONE"@,
    ) || spec_kw_match(eu, "TRUE"@) || spec_kw_match(eu, "FALSE"@)
}

fn keyword_passthrough(eu: &Vec<char>) -> (r: bool)
    ensures
        r == spec_keyword_passthrough(eu@),
{
    kw_match_exec(eu, "SYSDATE") || kw_match_exec(eu, "SYSTIMESTAMP") || kw_match_exec(
        eu,
        "CURRENT_DATE",
    ) || kw_match_exec(eu, "CURRENT_TIME") || kw_match_exec(eu, "CURRENT_TIMESTAMP")
        || kw_match_exec(eu, "LOCALTIMESTAMP") || kw_match_exec(eu, "LOCALTIME") || kw_match_exec(
        eu,
        "USER",
    ) || kw_match_exec(eu, "CURRENT_USER") || kw_match_exec(eu, "CURRENT USER") || kw_match_exec(
        eu,
        "SESSION_USER",
    ) || kw_match_exec(eu, "SESSION USER") || kw_match_exec(eu, "CURRENT_SCHEMA") || kw_match_exec(
        eu,
        "CURRENT SCHEMA",
    ) || kw_match_exec(eu, "CURRENT_ROLE") || kw_match_exec(eu, "CURRENT ROLE") || kw_match_exec(
        eu,
        "DBTIMEZONE",
    ) || kw_match_exec(eu, "SESSIONTIMEZONE") || kw_match_exec(eu, "TRUE") || kw_match_exec(
        eu,
        "FALSE",
    )
}

/// A character position that marks the expression as arithmetic: any `*`
/// or `/`; a non-leading `+` not opening a `+0`/`+1` timezone shape; a
/// non-leading `-` after a space, a closing parenthesis or a letter.
pub open spec fn spec_arith_at(s: Seq<char>, i: int) -> bool {
    &&& 0 <= i < s.len()
    &&& {
        ||| s[i] == '*'
        ||| s[i] == '/'
        ||| (s[i] == '+' && i > 0 && !(i + 1 < s.len() && (s[i + 1] == '0' || s[i + 1] == '1')))
        ||| (s[i] == '-' && i > 0 && (s[i - 1] == ' ' || s[i - 1] == ')' || is_alpha(s[i - 1])))
    }
}

/// Whether any position of `s` looks like an arithmetic operator.
pub open spec fn spec_has_arith(s: Seq<char>) -> bool {
    exists|i: int| spec_arith_at(s, i)
}

fn has_arith(v: &Vec<char>) -> (r: bool)
    ensures
        r == spec_has_arith(v@),
{
    let mut i: usize = 0;
    while i < v.len()
        invariant
            i <= v@.len(),
            forall|j: int| 0 <= j < i ==> !spec_arith_at(v@, j),
        decreases v@.len() - i,
    {
        let c = v[i];
        if c == '*' || c == '/' {
            proof {
                assert(spec_arith_at(v@, i as int));
            }
            return true;
        }
        if c == '+' && i > 0 {
            let tz_shape = i + 1 < v.len() && (v[i + 1] == '0' || v[i + 1] == '1');
            if !tz_shape {
                proof {
                    assert(spec_arith_at(v@, i as int));
                }
                return true;
            }
        }
        if c == '-' && i > 0 {
            let prev = v[i - 1];
            if prev == ' ' || prev == ')' || is_alpha_char(prev) {
                proof {
                    assert(spec_arith_at(v@, i as int));
                }
                return true;
            }
        }
        i = i + 1;
    }
    false
}

pub open spec fn spec_all_hex(s: Seq<char>) -> bool {
    forall|i: int| 0 <= i < s.len() ==> is_hex_digit(#[trigger] s[i])
}

fn all_hex(v: &Vec<char>) -> (r: bool)
    ensures
        r == spec_all_hex(v@),
{
    let mut i: usize = 0;
    while i < v.len()
        invariant
            i <= v@.len(),
            forall|j: int| 0 <= j < i ==> is_hex_digit(#[trigger] v@[j]),
        decreases v@.len() - i,
    {
        if !is_hex_digit_char(v[i]) {
            return false;
        }
        i = i + 1;
    }
    true
}

} // verus!

verus! {

/// Types that take a length with CHAR/BYTE semantics.
pub open spec fn spec_is_sized_string_type(dt: Seq<char>) -> bool {
    dt == "VARCHAR"@ || dt == "VARCHAR2"@ || dt == "CHAR"@ || dt == "NCHAR"@ || dt == "NVARCHAR"@
        || dt == "NVARCHAR2"@ || dt == "RAW"@ || dt == "BINARY"@ || dt == "VARBINARY"@
}

pub open spec fn spec_is_precision_number_type(dt: Seq<char>) -> bool {
    dt == "NUMBER"@ || dt == "DECIMAL"@ || dt == "NUMERIC"@
}

pub open spec fn spec_is_precision_float_type(dt: Seq<char>) -> bool {
    dt == "FLOAT"@ || dt == "DOUBLE"@ || dt == "REAL"@
}

/// The rendered declared type: parameterized catalog strings pass through;
/// otherwise length, precision/scale or fractional-seconds parameters are
/// attached as the family calls for.
pub open spec fn spec_format_data_type(c: ColumnView) -> Seq<char> {
    let dt = upper_seq(trim_spec(c.data_type));
    if dt.contains('(') {
        dt
    } else if spec_is_sized_string_type(dt) {
        match c.length {
            Some(l) => if l > 0 {
                match c.char_semantics {
                    Some(cs0) => {
                        let cs = upper_seq(cs0);
                        if cs == "C"@ || has_substring(cs, "CHAR"@) {
                            dt + "("@ + dec_int(l as int) + " CHAR)"@
                        } else if cs == "B"@ || has_substring(cs, "BYTE"@) {
                            dt + "("@ + dec_int(l as int) + " BYTE)"@
                        } else {
                            dt + "("@ + dec_int(l as int) + ")"@
                        }
                    },
                    None => dt + "("@ + dec_int(l as int) + ")"@,
                }
            } else {
                dt
            },
            None => dt,
        }
    } else if spec_is_precision_number_type(dt) {
        match c.precision {
            Some(p) => if p > 0 {
                match c.scale {
                    Some(s) => if s > 0 {
                        dt + "("@ + dec_int(p as int) + ","@ + dec_int(s as int) + ")"@
                    } else if s == 0 {
                        dt + "("@ + dec_int(p as int) + ",0)"@
                    } else {
                        dt + "("@ + dec_int(p as int) + ")"@
                    },
                    None => dt + "("@ + dec_int(p as int) + ")"@,
                }
            } else {
                dt
            },
            None => dt,
        }
    } else if spec_is_precision_float_type(dt) {
        match c.precision {
            Some(p) => if p > 0 {
                dt + "("@ + dec_int(p as int) + ")"@
            } else {
                dt
            },
            None => dt,
        }
    } else if dt == "TIMESTAMP"@ {
        match c.scale {
            Some(fsp) => if 0 <= fsp <= 9 && fsp != 6 {
                "TIMESTAMP("@ + dec_int(fsp as int) + ")"@
            } else {
                dt
            },
            None => dt,
        }
    } else {
        dt
    }
}

/// Renders the declared type of a column for its definition.
pub fn format_data_type(column: &Column) -> (r: String)
    ensures
        r@ == spec_format_data_type(column@),
{
    let raw = chars_of(column.data_type.as_str());
    let trimmed = trim_vec(&raw);
    let dtv = upper_vec(&trimmed);
    let dt = string_of(&dtv);
    if contains_char(&dtv, '(') {
        return dt;
    }
    let sized = eq_str(&dtv, "VARCHAR") || eq_str(&dtv, "VARCHAR2") || eq_str(&dtv, "CHAR")
        || eq_str(&dtv, "NCHAR") || eq_str(&dtv, "NVARCHAR") || eq_str(&dtv, "NVARCHAR2")
        || eq_str(&dtv, "RAW") || eq_str(&dtv, "BINARY") || eq_str(&dtv, "VARBINARY");
    if sized {
        match &column.length {
            Some(l) => {
                if *l > 0 {
                    let mut s = dt;
                    s.append("(");
                    let n = i64_to_string(*l as i64);
                    s.append(n.as_str());
                    match &column.char_semantics {
                        Some(cs0) => {
                            let csv = chars_of(cs0.as_str());
                            let cs = upper_vec(&csv);
                            if eq_str(&cs, "C") || contains_lit(&cs, "CHAR") {
                                s.append(" CHAR)");
                            } else if eq_str(&cs, "B") || contains_lit(&cs, "BYTE") {
                                s.append(" BYTE)");
                            } else {
                                s.append(")");
                            }
                        },
                        None => {
                            s.append(")");
                        },
                    }
                    return s;
                }
                return dt;
            },
            None => {
                return dt;
            },
        }
    }
    if eq_str(&dtv, "NUMBER") || eq_str(&dtv, "DECIMAL") || eq_str(&dtv, "NUMERIC") {
        match &column.precision {
            Some(p) => {
                if *p > 0 {
                    let mut s = dt;
                    s.append("(");
                    let n = i64_to_string(*p as i64);
                    s.append(n.as_str());
                    match &column.scale {
                        Some(sc) => {
                            if *sc > 0 {
                                s.append(",");
                                let m = i64_to_string(*sc as i64);
                                s.append(m.as_str());
                                s.append(")");
                            } else if *sc == 0 {
                                s.append(",0)");
                            } else {
                                s.append(")");
                            }
                        },
                        None => {
                            s.append(")");
                        },
                    }
                    return s;
                }
                return dt;
            },
            None => {
                return dt;
            },
        }
    }
    if eq_str(&dtv, "FLOAT") || eq_str(&dtv, "DOUBLE") || eq_str(&dtv, "REAL") {
        match &column.precision {
            Some(p) => {
                if *p > 0 {
                    let mut s = dt;
                    s.append("(");
                    let n = i64_to_string(*p as i64);
                    s.append(n.as_str());
                    s.append(")");
                    return s;
                }
                return dt;
            },
            None => {
                return dt;
            },
        }
    }
    if eq_str(&dtv, "TIMESTAMP") {
        match &column.scale {
            Some(fsp) => {
                if 0 <= *fsp && *fsp <= 9 && *fsp != 6 {
                    let mut s = String::from_str("TIMESTAMP(");
                    let n = i64_to_string(*fsp as i64);
                    s.append(n.as_str());
                    s.append(")");
                    return s;
                }
                return dt;
            },
            None => {
                return dt;
            },
        }
    }
    dt
}

} // verus!

verus! {

/// The date-or-datetime conversion for a date-shaped text.
pub open spec fn spec_to_date_call(text: Seq<char>) -> Seq<char> {
    "TO_DATE('"@ + spec_escape_literal(text) + "','"@ + (if text.contains(':') {
        "YYYY-MM-DD HH24:MI:SS"@
    } else {
        "YYYY-MM-DD"@
    }) + "')"@
}

/// The timestamp conversion for a timestamp-shaped text under a declared
/// type `dt` (upper-cased): timezone-aware when both the type and the
/// value carry timezone information.
pub open spec fn spec_to_timestamp_call(dt: Seq<char>, text: Seq<char>) -> Seq<char> {
    let normalized = spec_normalize_iso_timestamp(text);
    let format = spec_build_timestamp_format(normalized, has_substring(dt, "TIME ZONE"@));
    if has_substring(dt, "TIME ZONE"@) && spec_has_timezone(normalized) {
        "TO_TIMESTAMP_TZ('"@ + spec_escape_literal(normalized) + "','"@ + format + "')"@
    } else {
        "TO_TIMESTAMP('"@ + spec_escape_literal(normalized) + "','"@ + format + "')"@
    }
}

/// The ordered classification of a raw default value for a column: first
/// the pass-through shapes (keywords, literals in explicit syntax,
/// function calls, expressions), then type-directed rendering.
pub open spec fn spec_format_default(c: ColumnView, raw: Seq<char>) -> Seq<char> {
    let dt = upper_seq(trim_spec(c.data_type));
    let expr = trim_spec(raw);
    let eu = upper_seq(expr);
    if eu == "NULL"@ {
        "NULL"@
    } else if expr.len() >= 2 && expr[0] == '\'' && expr.last() == '\'' {
        let inner = expr.subrange(1, expr.len() - 1);
        if dt == "DATE"@ && spec_is_date_literal(inner) {
            spec_to_date_call(inner)
        } else if has_prefix(dt, "TIMESTAMP"@) && (spec_is_date_literal(inner)
            || spec_is_timestamp_literal(inner)) {
            spec_to_timestamp_call(dt, inner)
        } else {
            expr
        }
    } else if has_prefix(eu, "N'"@) && expr.last() == '\'' {
        expr
    } else if (has_prefix(eu, "X'"@) && expr.last() == '\'') || has_prefix(eu, "0X"@) {
        expr
    } else if has_prefix(eu, "DATE "@) || has_prefix(eu, "TIMESTAMP "@) || has_prefix(
        eu,
        "INTERVAL "@,
    ) {
        expr
    } else if expr.contains('(') {
        expr
    } else if has_substring(expr, "||"@) {
        expr
    } else if has_prefix(eu, "CASE "@) || has_substring(eu, " CASE "@) {
        expr
    } else if has_prefix(eu, "NEXT VALUE FOR"@) || has_substring(eu, ".NEXTVAL"@) {
        expr
    } else if spec_keyword_passthrough(eu) {
        expr
    } else if !spec_is_date_literal(expr) && spec_has_arith(expr) {
        expr
    } else if spec_is_string_type(dt) {
        if spec_looks_like_expression(expr) {
            expr
        } else {
            "'"@ + spec_escape_literal(expr) + "'"@
        }
    } else if spec_is_numeric_type(dt) {
        expr
    } else if dt == "DATE"@ {
        if spec_is_date_literal(expr) {
            spec_to_date_call(expr)
        } else {
            expr
        }
    } else if has_prefix(dt, "TIMESTAMP"@) {
        if spec_is_date_literal(expr) || spec_is_timestamp_literal(expr) {
            spec_to_timestamp_call(dt, expr)
        } else {
            expr
        }
    } else if spec_is_binary_type(dt) {
        if has_prefix(eu, "HEXTORAW"@) || has_prefix(eu, "X'"@) {
            expr
        } else if spec_all_hex(expr) {
            "HEXTORAW('"@ + expr + "')"@
        } else {
            expr
        }
    } else {
        expr
    }
}

/// Renders a `TO_DATE` conversion call.
fn to_date_call(text: &Vec<char>) -> (r: String)
    ensures
        r@ == spec_to_date_call(text@),
{
    let ts = string_of(text);
    let mut s = String::from_str("TO_DATE('");
    let esc = escape_single_quotes(ts.as_str());
    s.append(esc.as_str());
    s.append("','");
    if contains_char(text, ':') {
        s.append("YYYY-MM-DD HH24:MI:SS");
    } else {
        s.append("YYYY-MM-DD");
    }
    s.append("')");
    s
}

/// Renders a `TO_TIMESTAMP` / `TO_TIMESTAMP_TZ` conversion call.
fn to_timestamp_call(dt: &Vec<char>, text: &Vec<char>) -> (r: String)
    ensures
        r@ == spec_to_timestamp_call(dt@, text@),
{
    let ts = string_of(text);
    let normalized = normalize_iso_timestamp(ts.as_str());
    let with_tz = contains_lit(dt, "TIME ZONE");
    let format = build_timestamp_format(normalized.as_str(), with_tz);
    let mut s = if with_tz && has_timezone(normalized.as_str()) {
        String::from_str("TO_TIMESTAMP_TZ('")
    } else {
        String::from_str("TO_TIMESTAMP('")
    };
    let esc = escape_single_quotes(normalized.as_str());
    s.append(esc.as_str());
    s.append("','");
    s.append(format.as_str());
    s.append("')");
    s
}

/// Classifies and renders a raw default value for a column. Total: every
/// input maps to exactly one rendering, never an error.
pub fn format_default(column: &Column, raw: &str) -> (r: String)
    ensures
        r@ == spec_format_default(column@, raw@),
{
    let dtraw = chars_of(column.data_type.as_str());
    let dttrim = trim_vec(&dtraw);
    let dt = upper_vec(&dttrim);
    let rawv = chars_of(raw);
    let expr = trim_vec(&rawv);
    let eu = upper_vec(&expr);
    if eq_str(&eu, "NULL") {
        return String::from_str("NULL");
    }
    if expr.len() >= 2 && expr[0] == '\'' && expr[expr.len() - 1] == '\'' {
        proof {
            assert(expr@.last() == expr@[expr@.len() - 1]);
        }
        let inner = subvec(&expr, 1, expr.len() - 1);
        if eq_str(&dt, "DATE") {
            let inner_s = string_of(&inner);
            if is_date_literal(inner_s.as_str()) {
                return to_date_call(&inner);
            }
        }
        if starts_with_lit(&dt, "TIMESTAMP") {
            let inner_s = string_of(&inner);
            if is_date_literal(inner_s.as_str()) || is_timestamp_literal(inner_s.as_str()) {
                return to_timestamp_call(&dt, &inner);
            }
        }
        return string_of(&expr);
    }
    if starts_with_lit(&eu, "N'") && expr.len() > 0 && expr[expr.len() - 1] == '\'' {
        proof {
            assert(expr@.last() == expr@[expr@.len() - 1]);
        }
        return string_of(&expr);
    }
    proof {
        if has_prefix(eu@, "N'"@) {
            assert(eu@.len() == expr@.len());
            assert(eu@.len() >= "N'"@.len());
            assert("N'"@.len() > 0) by {
                reveal_strlit("N'");
            }
        }
    }
    if (starts_with_lit(&eu, "X'") && expr.len() > 0 && expr[expr.len() - 1] == '\'')
        || starts_with_lit(&eu, "0X") {
        proof {
            if expr@.len() > 0 {
                assert(expr@.last() == expr@[expr@.len() - 1]);
            }
            if has_prefix(eu@, "X'"@) {
                assert("X'"@.len() > 0) by {
                    reveal_strlit("X'");
                }
            }
        }
        return string_of(&expr);
    }
    proof {
        if has_prefix(eu@, "X'"@) {
            assert("X'"@.len() > 0) by {
                reveal_strlit("X'");
            }
        }
    }
    if starts_with_lit(&eu, "DATE ") || starts_with_lit(&eu, "TIMESTAMP ") || starts_with_lit(
        &eu,
        "INTERVAL ",
    ) {
        return string_of(&expr);
    }
    if contains_char(&expr, '(') {
        return string_of(&expr);
    }
    if contains_lit(&expr, "||") {
        return string_of(&expr);
    }
    if starts_with_lit(&eu, "CASE ") || contains_lit(&eu, " CASE ") {
        return string_of(&expr);
    }
    if starts_with_lit(&eu, "NEXT VALUE FOR") || contains_lit(&eu, ".NEXTVAL") {
        return string_of(&expr);
    }
    if keyword_passthrough(&eu) {
        return string_of(&expr);
    }
    let expr_s = string_of(&expr);
    let looks_like_date = is_date_literal(expr_s.as_str());
    if !looks_like_date && has_arith(&expr) {
        return string_of(&expr);
    }
    let dt_s = string_of(&dt);
    if is_string_type(dt_s.as_str()) {
        if looks_like_expression(expr_s.as_str()) {
            return string_of(&expr);
        }
        let mut s = String::from_str("'");
        let esc = escape_single_quotes(expr_s.as_str());
        s.append(esc.as_str());
        s.append("'");
        return s;
    }
    if is_numeric_type(dt_s.as_str()) {
        return string_of(&expr);
    }
    if eq_str(&dt, "DATE") {
        if looks_like_date {
            return to_date_call(&expr);
        }
        return string_of(&expr);
    }
    if starts_with_lit(&dt, "TIMESTAMP") {
        if looks_like_date || is_timestamp_literal(expr_s.as_str()) {
            return to_timestamp_call(&dt, &expr);
        }
        return string_of(&expr);
    }
    if is_binary_type(dt_s.as_str()) {
        if starts_with_lit(&eu, "HEXTORAW") || starts_with_lit(&eu, "X'") {
            return string_of(&expr);
        }
        if all_hex(&expr) {
            let mut s = String::from_str("HEXTORAW('");
            s.append(expr_s.as_str());
            s.append("')");
            return s;
        }
        return string_of(&expr);
    }
    string_of(&expr)
}

} // verus!

verus! {

/// One rendered column definition: quoted name, type, identity or default
/// clause, then nullability.
pub open spec fn spec_column_definition(c: ColumnView) -> Seq<char> {
    spec_quote_identifier(c.name) + " "@ + spec_format_data_type(c) + (if c.identity {
        match (c.identity_start, c.identity_increment) {
            (Some(start), Some(inc)) => " IDENTITY("@ + dec_int(start as int) + ", "@ + dec_int(
                inc as int,
            ) + ")"@,
            _ => " IDENTITY(1, 1)"@,
        }
    } else {
        match c.default_value {
            Some(d) => if trim_spec(d).len() > 0 {
                " DEFAULT "@ + spec_format_default(c, trim_spec(d))
            } else {
                Seq::empty()
            },
            None => Seq::empty(),
        }
    }) + (if c.nullable {
        " NULL"@
    } else {
        " NOT NULL"@
    })
}

/// Renders one column definition for the CREATE TABLE body.
pub fn format_column_definition(column: &Column) -> (r: String)
    ensures
        r@ == spec_column_definition(column@),
{
    let mut s = quote_identifier(column.name.as_str());
    s.append(" ");
    let dt = format_data_type(column);
    s.append(dt.as_str());
    if column.identity {
        match (&column.identity_start, &column.identity_increment) {
            (Some(start), Some(inc)) => {
                s.append(" IDENTITY(");
                let a = i64_to_string(*start);
                s.append(a.as_str());
                s.append(", ");
                let b = i64_to_string(*inc);
                s.append(b.as_str());
                s.append(")");
            },
            _ => {
                s.append(" IDENTITY(1, 1)");
            },
        }
    } else {
        match &column.default_value {
            Some(d) => {
                let dv = chars_of(d.as_str());
                let dtrim = trim_vec(&dv);
                if dtrim.len() > 0 {
                    s.append(" DEFAULT ");
                    let dtrim_s = string_of(&dtrim);
                    let rendered = format_default(column, dtrim_s.as_str());
                    s.append(rendered.as_str());
                }
            },
            None => {},
        }
    }
    if column.nullable {
        s.append(" NULL");
    } else {
        s.append(" NOT NULL");
    }
    s
}

/// The COMMENT ON COLUMN statements for every column with a non-blank
/// comment.
pub open spec fn spec_column_comments(table_ident: Seq<char>, cols: Seq<ColumnView>) -> Seq<char>
    decreases cols.len(),
{
    if cols.len() == 0 {
        Seq::empty()
    } else {
        spec_column_comments(table_ident, cols.drop_last()) + (match cols.last().comment {
            Some(c0) => if trim_spec(c0).len() > 0 {
                "COMMENT ON COLUMN "@ + table_ident + "."@ + spec_quote_identifier(
                    cols.last().name,
                ) + " IS '"@ + spec_escape_literal(trim_spec(c0)) + "';\n"@
            } else {
                Seq::empty()
            },
            None => Seq::empty(),
        })
    }
}

/// The CREATE TABLE statement with its comment statements, trailing
/// whitespace trimmed.
pub open spec fn spec_create_table(t: crate::model::TableDetailsView) -> Seq<char> {
    let ident = spec_quote_identifier(t.name);
    let body = seq_join(
        Seq::new(t.columns.len(), |i: int| "    "@ + spec_column_definition(t.columns[i])),
        ",\n"@,
    );
    let head = "CREATE TABLE "@ + ident + " (\n"@ + body + "\n);\n"@;
    let table_comment = match t.comment {
        Some(c0) => if trim_spec(c0).len() > 0 {
            "COMMENT ON TABLE "@ + ident + " IS '"@ + spec_escape_literal(trim_spec(c0)) + "';\n"@
        } else {
            Seq::empty()
        },
        None => Seq::empty(),
    };
    crate::text::trim_end_spec(head + table_comment + spec_column_comments(ident, t.columns))
}

/// Emits `CREATE TABLE` with its column definitions and any table and
/// column comments.
#[verifier::rlimit(100)]
pub fn generate_create_table(table: &crate::model::TableDetails) -> (r: String)
    ensures
        r@ == spec_create_table(table@),
{
    let table_ident = quote_identifier(table.name.as_str());
    let ghost cols = table.columns.deep_view();
    let mut lines: Vec<String> = Vec::new();
    let mut i: usize = 0;
    while i < table.columns.len()
        invariant
            cols == table.columns.deep_view(),
            cols.len() == table.columns@.len(),
            i <= table.columns@.len(),
            lines@.len() == i,
            forall|j: int|
                0 <= j < i ==> #[trigger] lines@[j]@ == "    "@ + spec_column_definition(cols[j]),
        decreases table.columns@.len() - i,
    {
        proof {
            assert(cols[i as int] == table.columns@[i as int]@);
        }
        let mut line = String::from_str("    ");
        let def = format_column_definition(&table.columns[i]);
        line.append(def.as_str());
        lines.push(line);
        i = i + 1;
    }
    let body = join_strings(&lines, ",\n");
    proof {
        assert(lines.deep_view() =~~= Seq::new(
            cols.len(),
            |j: int| "    "@ + spec_column_definition(cols[j]),
        )) by {
            assert(forall|j: int|
                0 <= j < lines@.len() ==> #[trigger] lines.deep_view()[j] == lines@[j]@);
        }
    }
    let mut text = String::from_str("CREATE TABLE ");
    text.append(table_ident.as_str());
    text.append(" (\n");
    text.append(body.as_str());
    text.append("\n);\n");
    match &table.comment {
        Some(c0) => {
            let cv = chars_of(c0.as_str());
            let ct = trim_vec(&cv);
            if ct.len() > 0 {
                text.append("COMMENT ON TABLE ");
                text.append(table_ident.as_str());
                text.append(" IS '");
                let ct_s = string_of(&ct);
                let esc = escape_single_quotes(ct_s.as_str());
                text.append(esc.as_str());
                text.append("';\n");
            }
        },
        None => {},
    }
    let ghost pre_comments = text@;
    let mut k: usize = 0;
    while k < table.columns.len()
        invariant
            cols == table.columns.deep_view(),
            cols.len() == table.columns@.len(),
            k <= table.columns@.len(),
            table_ident@ == spec_quote_identifier(table@.name),
            text@ == pre_comments + spec_column_comments(table_ident@, cols.take(k as int)),
        decreases table.columns@.len() - k,
    {
        proof {
            assert(cols.take(k + 1).drop_last() =~= cols.take(k as int));
            assert(cols.take(k + 1).last() == cols[k as int]);
            assert(cols[k as int] == table.columns@[k as int]@);
        }
        match &table.columns[k].comment {
            Some(c0) => {
                let cv = chars_of(c0.as_str());
                let ct = trim_vec(&cv);
                if ct.len() > 0 {
                    text.append("COMMENT ON COLUMN ");
                    text.append(table_ident.as_str());
                    text.append(".");
                    let colid = quote_identifier(table.columns[k].name.as_str());
                    text.append(colid.as_str());
                    text.append(" IS '");
                    let ct_s = string_of(&ct);
                    let esc = escape_single_quotes(ct_s.as_str());
                    text.append(esc.as_str());
                    text.append("';\n");
                }
            },
            None => {},
        }
        k = k + 1;
    }
    proof {
        assert(cols.take(cols.len() as int) =~= cols);
        let ident = spec_quote_identifier(table@.name);
        let spec_body = seq_join(
            Seq::new(cols.len(), |i: int| "    "@ + spec_column_definition(cols[i])),
            ",\n"@,
        );
        let head = "CREATE TABLE "@ + ident + " (\n"@ + spec_body + "\n);\n"@;
        let table_comment = match table@.comment {
            Some(c0) => if trim_spec(c0).len() > 0 {
                "COMMENT ON TABLE "@ + ident + " IS '"@ + spec_escape_literal(trim_spec(c0))
                    + "';\n"@
            } else {
                Seq::<char>::empty()
            },
            None => Seq::<char>::empty(),
        };
        assert(pre_comments =~= head + table_comment);
        assert(text@ =~= head + table_comment + spec_column_comments(ident, cols));
    }
    let tv = chars_of(text.as_str());
    let trimmed = crate::text::trim_end_vec(&tv);
    string_of(&trimmed)
}

/// The base table name: everything after the last dot.
pub open spec fn spec_base_name(name: Seq<char>) -> Seq<char> {
    split_on(name, '.').last()
}

/// The primary-key statement, absent when the table has no primary key.
pub open spec fn spec_primary_key(t: crate::model::TableDetailsView) -> Seq<char> {
    "ALTER TABLE "@ + spec_quote_identifier(t.name) + " ADD CONSTRAINT "@ + spec_quote_identifier(
        "PK_"@ + spec_base_name(t.name),
    ) + " PRIMARY KEY ("@ + seq_join(
        Seq::new(t.primary_keys.len(), |i: int| spec_quote_identifier(t.primary_keys[i])),
        ", "@,
    ) + ");"@
}

/// Emits the primary-key constraint, or nothing when there is none; the
/// constraint is named `PK_` plus the base table name.
pub fn generate_primary_key(table: &crate::model::TableDetails) -> (r: Option<String>)
    ensures
        table@.primary_keys.len() == 0 <==> r is None,
        r matches Some(s) ==> s@ == spec_primary_key(table@),
{
    if table.primary_keys.len() == 0 {
        return None;
    }
    let ghost pks = table.primary_keys.deep_view();
    let mut quoted: Vec<String> = Vec::new();
    let mut i: usize = 0;
    while i < table.primary_keys.len()
        invariant
            pks == table.primary_keys.deep_view(),
            pks.len() == table.primary_keys@.len(),
            i <= table.primary_keys@.len(),
            quoted@.len() == i,
            forall|j: int| 0 <= j < i ==> #[trigger] quoted@[j]@ == spec_quote_identifier(pks[j]),
        decreases table.primary_keys@.len() - i,
    {
        proof {
            assert(pks[i as int] == table.primary_keys@[i as int]@);
        }
        quoted.push(quote_identifier(table.primary_keys[i].as_str()));
        i = i + 1;
    }
    let columns = join_strings(&quoted, ", ");
    proof {
        assert(quoted.deep_view() =~~= Seq::new(
            pks.len(),
            |j: int| spec_quote_identifier(pks[j]),
        )) by {
            assert(forall|j: int|
                0 <= j < quoted@.len() ==> #[trigger] quoted.deep_view()[j] == quoted@[j]@);
        }
    }
    let name_chars = chars_of(table.name.as_str());
    let segments = crate::text::split_char(&name_chars, '.');
    proof {
        assert(segments.deep_view().last() == segments@[segments@.len() - 1]@);
    }
    let mut constraint = String::from_str("PK_");
    let base = string_of(&segments[segments.len() - 1]);
    constraint.append(base.as_str());
    proof {
        assert("PK_"@ + spec_base_name(table@.name) == constraint@);
    }
    let mut stmt = String::from_str("ALTER TABLE ");
    let tid = quote_identifier(table.name.as_str());
    stmt.append(tid.as_str());
    stmt.append(" ADD CONSTRAINT ");
    let cid = quote_identifier(constraint.as_str());
    stmt.append(cid.as_str());
    stmt.append(" PRIMARY KEY (");
    stmt.append(columns.as_str());
    stmt.append(");");
    Some(stmt)
}

} // verus!

verus! {

/// The quoted column list of a constraint.
pub open spec fn spec_quoted_cols(cols: Seq<Seq<char>>) -> Seq<char> {
    seq_join(Seq::new(cols.len(), |i: int| spec_quote_identifier(cols[i])), ", "@)
}

/// Quotes and joins a list of column names.
fn quoted_cols(cols: &Vec<String>) -> (r: String)
    ensures
        r@ == spec_quoted_cols(cols.deep_view()),
{
    let ghost dv = cols.deep_view();
    let mut quoted: Vec<String> = Vec::new();
    let mut i: usize = 0;
    while i < cols.len()
        invariant
            dv == cols.deep_view(),
            dv.len() == cols@.len(),
            i <= cols@.len(),
            quoted@.len() == i,
            forall|j: int| 0 <= j < i ==> #[trigger] quoted@[j]@ == spec_quote_identifier(dv[j]),
        decreases cols@.len() - i,
    {
        proof {
            assert(dv[i as int] == cols@[i as int]@);
        }
        quoted.push(quote_identifier(cols[i].as_str()));
        i = i + 1;
    }
    let r = join_strings(&quoted, ", ");
    proof {
        assert(quoted.deep_view() =~~= Seq::new(dv.len(), |j: int| spec_quote_identifier(dv[j])))
            by {
            assert(forall|j: int|
                0 <= j < quoted@.len() ==> #[trigger] quoted.deep_view()[j] == quoted@[j]@);
        }
    }
    r
}

/// One UNIQUE constraint statement.
pub open spec fn spec_unique_stmt(table_name: Seq<char>, uc: UniqueConstraintView) -> Seq<char> {
    "ALTER TABLE "@ + spec_quote_identifier(table_name) + " ADD CONSTRAINT "@
        + spec_quote_identifier(uc.name) + " UNIQUE ("@ + spec_quoted_cols(uc.columns) + ");"@
}

/// Emits one `ALTER TABLE ... ADD CONSTRAINT ... UNIQUE` per constraint.
pub fn generate_unique_constraints(table: &crate::model::TableDetails) -> (r: Vec<String>)
    ensures
        r.deep_view() == Seq::new(
            table@.unique_constraints.len(),
            |i: int| spec_unique_stmt(table@.name, table@.unique_constraints[i]),
        ),
{
    let ghost ucs = table.unique_constraints.deep_view();
    let mut r: Vec<String> = Vec::new();
    let mut i: usize = 0;
    while i < table.unique_constraints.len()
        invariant
            ucs == table.unique_constraints.deep_view(),
            ucs.len() == table.unique_constraints@.len(),
            i <= table.unique_constraints@.len(),
            r@.len() == i,
            forall|j: int|
                0 <= j < i ==> #[trigger] r@[j]@ == spec_unique_stmt(table@.name, ucs[j]),
        decreases table.unique_constraints@.len() - i,
    {
        proof {
            assert(ucs[i as int] == table.unique_constraints@[i as int]@);
        }
        let uc = &table.unique_constraints[i];
        let mut stmt = String::from_str("ALTER TABLE ");
        let tid = quote_identifier(table.name.as_str());
        stmt.append(tid.as_str());
        stmt.append(" ADD CONSTRAINT ");
        let cid = quote_identifier(uc.name.as_str());
        stmt.append(cid.as_str());
        stmt.append(" UNIQUE (");
        let cols = quoted_cols(&uc.columns);
        stmt.append(cols.as_str());
        stmt.append(");");
        r.push(stmt);
        i = i + 1;
    }
    proof {
        assert(r.deep_view() =~~= Seq::new(
            ucs.len(),
            |j: int| spec_unique_stmt(table@.name, ucs[j]),
        )) by {
            assert(forall|j: int| 0 <= j < r@.len() ==> #[trigger] r.deep_view()[j] == r@[j]@);
        }
    }
    r
}

/// One CHECK constraint statement; the stored condition is emitted as-is.
pub open spec fn spec_check_stmt(table_name: Seq<char>, ck: CheckConstraintView) -> Seq<char> {
    "ALTER TABLE "@ + spec_quote_identifier(table_name) + " ADD CONSTRAINT "@
        + spec_quote_identifier(ck.name) + " CHECK ("@ + ck.condition + ");"@
}

/// Emits one `ALTER TABLE ... ADD CONSTRAINT ... CHECK` per constraint.
pub fn generate_check_constraints(table: &crate::model::TableDetails) -> (r: Vec<String>)
    ensures
        r.deep_view() == Seq::new(
            table@.check_constraints.len(),
            |i: int| spec_check_stmt(table@.name, table@.check_constraints[i]),
        ),
{
    let ghost cks = table.check_constraints.deep_view();
    let mut r: Vec<String> = Vec::new();
    let mut i: usize = 0;
    while i < table.check_constraints.len()
        invariant
            cks == table.check_constraints.deep_view(),
            cks.len() == table.check_constraints@.len(),
            i <= table.check_constraints@.len(),
            r@.len() == i,
            forall|j: int| 0 <= j < i ==> #[trigger] r@[j]@ == spec_check_stmt(table@.name, cks[j]),
        decreases table.check_constraints@.len() - i,
    {
        proof {
            assert(cks[i as int] == table.check_constraints@[i as int]@);
        }
        let ck = &table.check_constraints[i];
        let mut stmt = String::from_str("ALTER TABLE ");
        let tid = quote_identifier(table.name.as_str());
        stmt.append(tid.as_str());
        stmt.append(" ADD CONSTRAINT ");
        let cid = quote_identifier(ck.name.as_str());
        stmt.append(cid.as_str());
        stmt.append(" CHECK (");
        stmt.append(ck.condition.as_str());
        stmt.append(");");
        r.push(stmt);
        i = i + 1;
    }
    proof {
        assert(r.deep_view() =~~= Seq::new(
            cks.len(),
            |j: int| spec_check_stmt(table@.name, cks[j]),
        )) by {
            assert(forall|j: int| 0 <= j < r@.len() ==> #[trigger] r.deep_view()[j] == r@[j]@);
        }
    }
    r
}

/// A referential rule is emitted only when present, non-empty, and not the
/// default NO ACTION (compared case-insensitively).
pub open spec fn spec_rule_emitted(rule: Option<Seq<char>>) -> bool {
    match rule {
        Some(r) => r.len() > 0 && !eq_ci(r, "NO ACTION"@),
        None => false,
    }
}

/// The FOREIGN KEY statement without its referential-action clauses.
pub open spec fn spec_fk_base(table_name: Seq<char>, fk: ForeignKeyView) -> Seq<char> {
    "ALTER TABLE "@ + spec_quote_identifier(table_name) + " ADD CONSTRAINT "@
        + spec_quote_identifier(fk.name) + " FOREIGN KEY ("@ + spec_quoted_cols(fk.columns)
        + ") REFERENCES "@ + spec_quote_identifier(fk.referenced_table) + " ("@ + spec_quoted_cols(
        fk.referenced_columns,
    ) + ")"@
}

/// One FOREIGN KEY statement, with ON DELETE / ON UPDATE clauses only for
/// rules that are present and not the default.
pub open spec fn spec_fk_stmt(table_name: Seq<char>, fk: ForeignKeyView) -> Seq<char> {
    spec_fk_base(table_name, fk) + (if spec_rule_emitted(fk.delete_rule) {
        " ON DELETE "@ + fk.delete_rule.unwrap()
    } else {
        Seq::empty()
    }) + (if spec_rule_emitted(fk.update_rule) {
        " ON UPDATE "@ + fk.update_rule.unwrap()
    } else {
        Seq::empty()
    }) + ";"@
}

/// A foreign key whose delete and update rules are absent, empty or the
/// default NO ACTION (in any letter case) is emitted as the bare
/// REFERENCES statement: no `ON DELETE` and no `ON UPDATE` clause ever
/// appears for a default rule.
pub proof fn lemma_no_action_rules_omitted(table_name: Seq<char>, fk: ForeignKeyView)
    requires
        !spec_rule_emitted(fk.delete_rule),
        !spec_rule_emitted(fk.update_rule),
    ensures
        spec_fk_stmt(table_name, fk) == spec_fk_base(table_name, fk) + ";"@,
{
    assert(spec_fk_stmt(table_name, fk) =~= spec_fk_base(table_name, fk) + ";"@);
}

/// Emits one FOREIGN KEY statement per constraint.
pub fn generate_foreign_keys(table: &crate::model::TableDetails) -> (r: Vec<String>)
    ensures
        r.deep_view() == Seq::new(
            table@.foreign_keys.len(),
            |i: int| spec_fk_stmt(table@.name, table@.foreign_keys[i]),
        ),
{
    let ghost fks = table.foreign_keys.deep_view();
    let mut r: Vec<String> = Vec::new();
    let mut i: usize = 0;
    while i < table.foreign_keys.len()
        invariant
            fks == table.foreign_keys.deep_view(),
            fks.len() == table.foreign_keys@.len(),
            i <= table.foreign_keys@.len(),
            r@.len() == i,
            forall|j: int| 0 <= j < i ==> #[trigger] r@[j]@ == spec_fk_stmt(table@.name, fks[j]),
        decreases table.foreign_keys@.len() - i,
    {
        proof {
            assert(fks[i as int] == table.foreign_keys@[i as int]@);
        }
        let fk = &table.foreign_keys[i];
        let mut stmt = String::from_str("ALTER TABLE ");
        let tid = quote_identifier(table.name.as_str());
        stmt.append(tid.as_str());
        stmt.append(" ADD CONSTRAINT ");
        let cid = quote_identifier(fk.name.as_str());
        stmt.append(cid.as_str());
        stmt.append(" FOREIGN KEY (");
        let cols = quoted_cols(&fk.columns);
        stmt.append(cols.as_str());
        stmt.append(") REFERENCES ");
        let rid = quote_identifier(fk.referenced_table.as_str());
        stmt.append(rid.as_str());
        stmt.append(" (");
        let rcols = quoted_cols(&fk.referenced_columns);
        stmt.append(rcols.as_str());
        stmt.append(")");
        match &fk.delete_rule {
            Some(rule) => {
                let rv = chars_of(rule.as_str());
                if rv.len() > 0 && !crate::text::eq_str_ci(&rv, "NO ACTION") {
                    stmt.append(" ON DELETE ");
                    stmt.append(rule.as_str());
                }
            },
            None => {},
        }
        match &fk.update_rule {
            Some(rule) => {
                let rv = chars_of(rule.as_str());
                if rv.len() > 0 && !crate::text::eq_str_ci(&rv, "NO ACTION") {
                    stmt.append(" ON UPDATE ");
                    stmt.append(rule.as_str());
                }
            },
            None => {},
        }
        stmt.append(";");
        r.push(stmt);
        i = i + 1;
    }
    proof {
        assert(r.deep_view() =~~= Seq::new(
            fks.len(),
            |j: int| spec_fk_stmt(table@.name, fks[j]),
        )) by {
            assert(forall|j: int| 0 <= j < r@.len() ==> #[trigger] r.deep_view()[j] == r@[j]@);
        }
    }
    r
}

/// One CREATE SEQUENCE statement with its numeric properties and flags.
pub open spec fn spec_sequence_stmt(schema: Seq<char>, s: crate::model::SequenceView) -> Seq<char> {
    "CREATE SEQUENCE "@ + spec_quote_identifier(schema) + "."@ + spec_quote_identifier(s.name) + (
    match s.start_with {
        Some(v) => " START WITH "@ + dec_int(v as int),
        None => Seq::empty(),
    }) + (match s.min_value {
        Some(v) => " MINVALUE "@ + dec_int(v as int),
        None => Seq::empty(),
    }) + (match s.max_value {
        Some(v) => " MAXVALUE "@ + dec_int(v as int),
        None => Seq::empty(),
    }) + " INCREMENT BY "@ + dec_int(s.increment_by as int) + (match s.cache_size {
        Some(c) => if c > 0 {
            " CACHE "@ + dec_int(c as int)
        } else {
            " NOCACHE"@
        },
        None => " NOCACHE"@,
    }) + (if s.cycle {
        " CYCLE"@
    } else {
        " NOCYCLE"@
    }) + (if s.order {
        " ORDER"@
    } else {
        " NOORDER"@
    }) + ";"@
}

/// The leading part of a CREATE SEQUENCE statement, through MAXVALUE.
pub open spec fn spec_sequence_stmt_head(
    schema: Seq<char>,
    s: crate::model::SequenceView,
) -> Seq<char> {
    "CREATE SEQUENCE "@ + spec_quote_identifier(schema) + "."@ + spec_quote_identifier(s.name) + (
    match s.start_with {
        Some(v) => " START WITH "@ + dec_int(v as int),
        None => Seq::empty(),
    }) + (match s.min_value {
        Some(v) => " MINVALUE "@ + dec_int(v as int),
        None => Seq::empty(),
    }) + (match s.max_value {
        Some(v) => " MAXVALUE "@ + dec_int(v as int),
        None => Seq::empty(),
    })
}

/// Renders the leading part of a CREATE SEQUENCE statement.
fn sequence_stmt_head(schema: &str, s: &crate::model::Sequence) -> (r: String)
    ensures
        r@ == spec_sequence_stmt_head(schema@, s@),
{
    let mut stmt = String::from_str("CREATE SEQUENCE ");
    let sid = quote_identifier(schema);
    stmt.append(sid.as_str());
    stmt.append(".");
    let nid = quote_identifier(s.name.as_str());
    stmt.append(nid.as_str());
    match &s.start_with {
        Some(v) => {
            stmt.append(" START WITH ");
            let n = i64_to_string(*v);
            stmt.append(n.as_str());
        },
        None => {},
    }
    match &s.min_value {
        Some(v) => {
            stmt.append(" MINVALUE ");
            let n = i64_to_string(*v);
            stmt.append(n.as_str());
        },
        None => {},
    }
    match &s.max_value {
        Some(v) => {
            stmt.append(" MAXVALUE ");
            let n = i64_to_string(*v);
            stmt.append(n.as_str());
        },
        None => {},
    }
    stmt
}

/// Renders one CREATE SEQUENCE statement.
fn sequence_stmt(schema: &str, s: &crate::model::Sequence) -> (r: String)
    ensures
        r@ == spec_sequence_stmt(schema@, s@),
{
    let mut stmt = sequence_stmt_head(schema, s);
    stmt.append(" INCREMENT BY ");
    let inc = i64_to_string(s.increment_by);
    stmt.append(inc.as_str());
    match &s.cache_size {
        Some(c) => {
            if *c > 0 {
                stmt.append(" CACHE ");
                let n = i64_to_string(*c);
                stmt.append(n.as_str());
            } else {
                stmt.append(" NOCACHE");
            }
        },
        None => {
            stmt.append(" NOCACHE");
        },
    }
    if s.cycle {
        stmt.append(" CYCLE");
    } else {
        stmt.append(" NOCYCLE");
    }
    if s.order {
        stmt.append(" ORDER");
    } else {
        stmt.append(" NOORDER");
    }
    stmt.append(";");
    proof {
        assert(stmt@ =~= spec_sequence_stmt(schema@, s@));
    }
    stmt
}

/// Emits one CREATE SEQUENCE statement per sequence.
pub fn generate_sequences(schema: &str, sequences: &Vec<crate::model::Sequence>) -> (r: Vec<
    String,
>)
    ensures
        r.deep_view() == Seq::new(
            sequences@.len() as nat,
            |i: int| spec_sequence_stmt(schema@, sequences.deep_view()[i]),
        ),
{
    let ghost sv = sequences.deep_view();
    let mut r: Vec<String> = Vec::new();
    let mut i: usize = 0;
    while i < sequences.len()
        invariant
            sv == sequences.deep_view(),
            sv.len() == sequences@.len(),
            i <= sequences@.len(),
            r@.len() == i,
            forall|j: int| 0 <= j < i ==> #[trigger] r@[j]@ == spec_sequence_stmt(schema@, sv[j]),
        decreases sequences@.len() - i,
    {
        proof {
            assert(sv[i as int] == sequences@[i as int]@);
        }
        let stmt = sequence_stmt(schema, &sequences[i]);
        r.push(stmt);
        i = i + 1;
    }
    proof {
        assert(r.deep_view() =~~= Seq::new(
            sv.len(),
            |j: int| spec_sequence_stmt(schema@, sv[j]),
        )) by {
            assert(forall|j: int| 0 <= j < r@.len() ==> #[trigger] r.deep_view()[j] == r@[j]@);
        }
    }
    r
}

} // verus!

verus! {

/// The ordered, case-folded column list of an index: the key used to
/// detect duplicate indexes.
pub open spec fn upper_names(cols: Seq<Seq<char>>) -> Seq<Seq<char>> {
    cols.map_values(|c: Seq<char>| upper_seq(c))
}

/// How many of `names` equal `x` after case folding.
pub open spec fn count_matching(names: Seq<Seq<char>>, x: Seq<char>) -> nat
    decreases names.len(),
{
    if names.len() == 0 {
        0
    } else {
        count_matching(names.drop_last(), x) + if upper_seq(names.last()) == upper_seq(x) {
            1nat
        } else {
            0nat
        }
    }
}

/// Two column lists cover the same column set: equal as multisets of
/// case-folded names, ignoring order.
pub open spec fn same_column_set(a: Seq<Seq<char>>, b: Seq<Seq<char>>) -> bool {
    forall|x: Seq<char>| #[trigger] count_matching(a, x) == count_matching(b, x)
}

proof fn lemma_count_pos(names: Seq<Seq<char>>, x: Seq<char>)
    requires
        count_matching(names, x) > 0,
    ensures
        exists|i: int|
            0 <= i < names.len() && upper_seq(#[trigger] names[i]) == upper_seq(x),
    decreases names.len(),
{
    if upper_seq(names.last()) == upper_seq(x) {
        assert(names[names.len() - 1] == names.last());
    } else {
        lemma_count_pos(names.drop_last(), x);
        let i = choose|i: int|
            0 <= i < names.drop_last().len() && upper_seq(#[trigger] names.drop_last()[i])
                == upper_seq(x);
        assert(names[i] == names.drop_last()[i]);
    }
}

proof fn lemma_count_ci(names: Seq<Seq<char>>, x: Seq<char>, y: Seq<char>)
    requires
        upper_seq(x) == upper_seq(y),
    ensures
        count_matching(names, x) == count_matching(names, y),
    decreases names.len(),
{
    if names.len() > 0 {
        lemma_count_ci(names.drop_last(), x, y);
    }
}

/// Counts the columns of `cols` matching `x` case-insensitively.
fn count_matching_exec(cols: &Vec<String>, x: &String) -> (n: usize)
    ensures
        n == count_matching(cols.deep_view(), x@),
{
    let ghost dv = cols.deep_view();
    let xv = chars_of(x.as_str());
    let mut n: usize = 0;
    let mut i: usize = 0;
    while i < cols.len()
        invariant
            dv == cols.deep_view(),
            dv.len() == cols@.len(),
            xv@ == x@,
            i <= cols@.len(),
            n == count_matching(dv.take(i as int), x@),
            n <= i,
        decreases cols@.len() - i,
    {
        proof {
            assert(dv.take(i + 1).drop_last() =~= dv.take(i as int));
            assert(dv.take(i + 1).last() == dv[i as int]);
            assert(dv[i as int] == cols@[i as int]@);
        }
        if crate::text::eq_str_ci(&xv, cols[i].as_str()) {
            n = n + 1;
        }
        i = i + 1;
    }
    proof {
        assert(dv.take(dv.len() as int) =~= dv);
    }
    n
}

/// Decides multiset equality of two column lists under case folding.
fn same_column_set_exec(a: &Vec<String>, b: &Vec<String>) -> (r: bool)
    ensures
        r == same_column_set(a.deep_view(), b.deep_view()),
{
    let ghost av = a.deep_view();
    let ghost bv = b.deep_view();
    let mut i: usize = 0;
    while i < a.len()
        invariant
            av == a.deep_view(),
            bv == b.deep_view(),
            av.len() == a@.len(),
            i <= a@.len(),
            forall|j: int|
                0 <= j < i ==> count_matching(av, #[trigger] av[j]) == count_matching(bv, av[j]),
        decreases a@.len() - i,
    {
        proof {
            assert(av[i as int] == a@[i as int]@);
        }
        let ca = count_matching_exec(a, &a[i]);
        let cb = count_matching_exec(b, &a[i]);
        if ca != cb {
            proof {
                assert(count_matching(av, av[i as int]) != count_matching(bv, av[i as int]));
            }
            return false;
        }
        i = i + 1;
    }
    let mut k: usize = 0;
    while k < b.len()
        invariant
            av == a.deep_view(),
            bv == b.deep_view(),
            bv.len() == b@.len(),
            k <= b@.len(),
            forall|j: int|
                0 <= j < av.len() ==> count_matching(av, #[trigger] av[j]) == count_matching(
                    bv,
                    av[j],
                ),
            forall|j: int|
                0 <= j < k ==> count_matching(av, #[trigger] bv[j]) == count_matching(bv, bv[j]),
        decreases b@.len() - k,
    {
        proof {
            assert(bv[k as int] == b@[k as int]@);
        }
        let ca = count_matching_exec(a, &b[k]);
        let cb = count_matching_exec(b, &b[k]);
        if ca != cb {
            proof {
                assert(count_matching(av, bv[k as int]) != count_matching(bv, bv[k as int]));
            }
            return false;
        }
        k = k + 1;
    }
    proof {
        assert forall|x: Seq<char>| #[trigger] count_matching(av, x) == count_matching(bv, x) by {
            if count_matching(av, x) > 0 {
                lemma_count_pos(av, x);
                let i = choose|i: int|
                    0 <= i < av.len() && upper_seq(#[trigger] av[i]) == upper_seq(x);
                lemma_count_ci(av, x, av[i]);
                lemma_count_ci(bv, x, av[i]);
            } else if count_matching(bv, x) > 0 {
                lemma_count_pos(bv, x);
                let i = choose|i: int|
                    0 <= i < bv.len() && upper_seq(#[trigger] bv[i]) == upper_seq(x);
                lemma_count_ci(av, x, bv[i]);
                lemma_count_ci(bv, x, bv[i]);
            }
        }
    }
    true
}

/// Whether `cols` covers the same column set as the primary key or any
/// non-empty unique constraint: such an index is redundant with the
/// constraint's implicit index.
pub open spec fn spec_index_reserved(
    t: crate::model::TableDetailsView,
    cols: Seq<Seq<char>>,
) -> bool {
    (t.primary_keys.len() > 0 && same_column_set(cols, t.primary_keys)) || (exists|k: int|
        0 <= k < t.unique_constraints.len() && (#[trigger] t.unique_constraints[k]).columns.len()
            > 0 && same_column_set(cols, t.unique_constraints[k].columns))
}

/// Checks whether an index's columns duplicate the primary key or a
/// unique constraint.
fn index_reserved(table: &crate::model::TableDetails, cols: &Vec<String>) -> (r: bool)
    ensures
        r == spec_index_reserved(table@, cols.deep_view()),
{
    if table.primary_keys.len() > 0 {
        if same_column_set_exec(cols, &table.primary_keys) {
            return true;
        }
    }
    let ghost ucs = table.unique_constraints.deep_view();
    let mut k: usize = 0;
    while k < table.unique_constraints.len()
        invariant
            ucs == table.unique_constraints.deep_view(),
            ucs.len() == table.unique_constraints@.len(),
            k <= table.unique_constraints@.len(),
            forall|j: int|
                0 <= j < k ==> !((#[trigger] ucs[j]).columns.len() > 0 && same_column_set(
                    cols.deep_view(),
                    ucs[j].columns,
                )),
        decreases table.unique_constraints@.len() - k,
    {
        proof {
            assert(ucs[k as int] == table.unique_constraints@[k as int]@);
        }
        let uc = &table.unique_constraints[k];
        if uc.columns.len() > 0 {
            if same_column_set_exec(cols, &uc.columns) {
                proof {
                    assert((#[trigger] table@.unique_constraints[k as int]).columns.len() > 0
                        && same_column_set(
                        cols.deep_view(),
                        table@.unique_constraints[k as int].columns,
                    ));
                }
                return true;
            }
        }
        k = k + 1;
    }
    false
}

/// Which of the first `n` indexes are retained: non-empty, not redundant
/// with a constraint, and not a duplicate (by ordered case-folded column
/// list) of an earlier retained index.
pub open spec fn spec_kept_flags(t: crate::model::TableDetailsView, n: int) -> Seq<bool>
    decreases n,
{
    if n <= 0 {
        Seq::empty()
    } else {
        let prev = spec_kept_flags(t, n - 1);
        let cols = t.indexes[n - 1].columns;
        let keep = cols.len() > 0 && !spec_index_reserved(t, cols) && !(exists|j: int|
            0 <= j < n - 1 && prev[j] && upper_names((#[trigger] t.indexes[j]).columns)
                == upper_names(cols));
        prev.push(keep)
    }
}

pub proof fn lemma_kept_flags_len(t: crate::model::TableDetailsView, n: int)
    requires
        n >= 0,
    ensures
        spec_kept_flags(t, n).len() == n,
    decreases n,
{
    if n > 0 {
        lemma_kept_flags_len(t, n - 1);
    }
}

pub proof fn lemma_kept_flags_prefix(t: crate::model::TableDetailsView, m: int, n: int)
    requires
        0 <= m <= n,
    ensures
        spec_kept_flags(t, n).take(m) == spec_kept_flags(t, m),
    decreases n,
{
    lemma_kept_flags_len(t, n);
    lemma_kept_flags_len(t, m);
    if m == n {
        assert(spec_kept_flags(t, n).take(m) =~= spec_kept_flags(t, n));
    } else {
        lemma_kept_flags_prefix(t, m, n - 1);
        lemma_kept_flags_len(t, n - 1);
        assert(spec_kept_flags(t, n).take(m) =~= spec_kept_flags(t, n - 1).take(m));
    }
}

} // verus!

verus! {

/// An auto-assigned catalog name: `INDEX` followed by digits only.
pub open spec fn spec_is_auto_index_name(name: Seq<char>) -> bool {
    let u = upper_seq(name);
    has_prefix(u, "INDEX"@) && (forall|i: int| 5 <= i < u.len() ==> is_digit(#[trigger] u[i]))
}

/// A deterministic replacement name for an auto-assigned index name:
/// `IDX_` plus the base table name and the column list, truncated to the
/// identifier length limit.
pub open spec fn spec_normalized_index_name(
    table_name: Seq<char>,
    idx: crate::model::IndexView,
) -> Seq<char> {
    if !spec_is_auto_index_name(idx.name) {
        idx.name
    } else {
        let full = "IDX_"@ + upper_seq(spec_base_name(table_name)) + "_"@ + seq_join(
            upper_names(idx.columns),
            "_"@,
        );
        if full.len() > 128 {
            full.take(128)
        } else {
            full
        }
    }
}

/// Checks the auto-assigned name shape on the upper-cased name.
fn is_auto_index_name(u: &Vec<char>) -> (r: bool)
    ensures
        r == (has_prefix(u@, "INDEX"@) && (forall|i: int|
            5 <= i < u@.len() ==> is_digit(#[trigger] u@[i]))),
{
    if !starts_with_lit(u, "INDEX") {
        return false;
    }
    proof {
        reveal_strlit("INDEX");
        assert(u@.len() >= 5);
    }
    let mut i: usize = 5;
    while i < u.len()
        invariant
            5 <= i <= u@.len(),
            forall|j: int| 5 <= j < i ==> is_digit(#[trigger] u@[j]),
        decreases u@.len() - i,
    {
        if !is_digit_char(u[i]) {
            return false;
        }
        i = i + 1;
    }
    true
}

/// Replaces a bare auto-assigned `INDEX<digits>` name; explicit names are
/// left untouched.
pub fn normalize_index_name(table_name: &str, index: &crate::model::Index) -> (r: String)
    ensures
        r@ == spec_normalized_index_name(table_name@, index@),
{
    let nv = chars_of(index.name.as_str());
    let u = upper_vec(&nv);
    proof {
        assert(u@ == upper_seq(index@.name));
    }
    if !is_auto_index_name(&u) {
        return index.name.clone();
    }
    let tv = chars_of(table_name);
    let segments = crate::text::split_char(&tv, '.');
    proof {
        assert(segments.deep_view().last() == segments@[segments@.len() - 1]@);
    }
    let base_u = upper_vec(&segments[segments.len() - 1]);
    let ghost colsv = index.columns.deep_view();
    let mut upper_cols: Vec<String> = Vec::new();
    let mut k: usize = 0;
    while k < index.columns.len()
        invariant
            colsv == index.columns.deep_view(),
            colsv.len() == index.columns@.len(),
            k <= index.columns@.len(),
            upper_cols@.len() == k,
            forall|j: int| 0 <= j < k ==> #[trigger] upper_cols@[j]@ == upper_seq(colsv[j]),
        decreases index.columns@.len() - k,
    {
        proof {
            assert(colsv[k as int] == index.columns@[k as int]@);
        }
        let cv = chars_of(index.columns[k].as_str());
        let cu = upper_vec(&cv);
        upper_cols.push(string_of(&cu));
        k = k + 1;
    }
    let joined = join_strings(&upper_cols, "_");
    proof {
        assert(upper_cols.deep_view() =~~= upper_names(colsv)) by {
            assert(forall|j: int|
                0 <= j < upper_cols@.len() ==> #[trigger] upper_cols.deep_view()[j]
                    == upper_cols@[j]@);
        }
    }
    let mut name = String::from_str("IDX_");
    let base_s = string_of(&base_u);
    name.append(base_s.as_str());
    name.append("_");
    name.append(joined.as_str());
    let mut full = chars_of(name.as_str());
    if full.len() > 128 {
        full.truncate(128);
        proof {
            assert(full@ == name@.take(128));
        }
        return string_of(&full);
    }
    name
}

/// One CREATE INDEX statement.
pub open spec fn spec_index_stmt(
    table_name: Seq<char>,
    idx: crate::model::IndexView,
) -> Seq<char> {
    (if idx.unique {
        "CREATE UNIQUE INDEX "@
    } else {
        "CREATE INDEX "@
    }) + spec_quote_identifier(spec_normalized_index_name(table_name, idx)) + " ON "@
        + spec_quote_identifier(table_name) + " ("@ + spec_quoted_cols(idx.columns) + ");"@
}

/// The retained index statements among the first `n` indexes.
pub open spec fn spec_index_statements(t: crate::model::TableDetailsView, n: int) -> Seq<Seq<char>>
    decreases n,
{
    if n <= 0 {
        Seq::empty()
    } else {
        let prev = spec_index_statements(t, n - 1);
        if spec_kept_flags(t, n)[n - 1] {
            prev.push(spec_index_stmt(t.name, t.indexes[n - 1]))
        } else {
            prev
        }
    }
}

/// Emits CREATE INDEX statements, dropping indexes redundant with the
/// primary key or a unique constraint and later duplicates of an already
/// retained ordered column list; auto-assigned names are replaced with
/// deterministic ones.
pub fn generate_indexes(table: &crate::model::TableDetails) -> (r: Vec<String>)
    ensures
        r.deep_view() == spec_index_statements(table@, table@.indexes.len() as int),
{
    let ghost t = table@;
    let ghost idxs = table.indexes.deep_view();
    let mut r: Vec<String> = Vec::new();
    let mut seen: Vec<usize> = Vec::new();
    let mut i: usize = 0;
    while i < table.indexes.len()
        invariant
            t == table@,
            idxs == table.indexes.deep_view(),
            idxs.len() == table.indexes@.len(),
            t.indexes == idxs,
            i <= table.indexes@.len(),
            r.deep_view() == spec_index_statements(t, i as int),
            spec_kept_flags(t, i as int).len() == i,
            forall|k: int|
                0 <= k < seen@.len() ==> 0 <= #[trigger] seen@[k] < i && spec_kept_flags(
                    t,
                    i as int,
                )[seen@[k] as int],
            forall|j: int|
                0 <= j < i && spec_kept_flags(t, i as int)[j] ==> exists|k: int|
                    0 <= k < seen@.len() && #[trigger] seen@[k] == j,
        decreases table.indexes@.len() - i,
    {
        proof {
            lemma_kept_flags_len(t, i as int);
            lemma_kept_flags_len(t, i + 1);
            lemma_kept_flags_prefix(t, i as int, i + 1);
            assert(spec_kept_flags(t, i + 1).take(i as int) =~= spec_kept_flags(t, i as int));
            assert(forall|j: int|
                0 <= j < i ==> spec_kept_flags(t, i + 1)[j] == spec_kept_flags(t, i as int)[j]);
            assert(idxs[i as int] == table.indexes@[i as int]@);
        }
        let index = &table.indexes[i];
        let mut keep = index.columns.len() > 0;
        if keep {
            if index_reserved(table, &index.columns) {
                keep = false;
            }
        }
        if keep {
            let mut k: usize = 0;
            let mut dup = false;
            while k < seen.len() && !dup
                invariant
                    t == table@,
                    idxs == table.indexes.deep_view(),
                    idxs.len() == table.indexes@.len(),
                    t.indexes == idxs,
                    i < table.indexes@.len(),
                    k <= seen@.len(),
                    spec_kept_flags(t, i as int).len() == i,
                    forall|m: int|
                        0 <= m < seen@.len() ==> 0 <= #[trigger] seen@[m] < i && spec_kept_flags(
                            t,
                            i as int,
                        )[seen@[m] as int],
                    !dup ==> forall|m: int|
                        0 <= m < k ==> upper_names(
                            (#[trigger] idxs[seen@[m] as int]).columns,
                        ) != upper_names(idxs[i as int].columns),
                    dup ==> exists|j: int|
                        0 <= j < i && spec_kept_flags(t, i as int)[j] && upper_names(
                            (#[trigger] idxs[j]).columns,
                        ) == upper_names(idxs[i as int].columns),
                decreases seen@.len() - k + (if dup { 0int } else { 1int }),
            {
                let p = seen[k];
                proof {
                    assert(idxs[p as int] == table.indexes@[p as int]@);
                    assert(idxs[i as int] == table.indexes@[i as int]@);
                }
                if eq_upper_names_exec(&table.indexes[p].columns, &table.indexes[i].columns) {
                    dup = true;
                    proof {
                        assert(0 <= p < i && spec_kept_flags(t, i as int)[p as int] && upper_names(
                            (#[trigger] idxs[p as int]).columns,
                        ) == upper_names(idxs[i as int].columns));
                    }
                } else {
                    proof {
                        assert(upper_names((#[trigger] idxs[seen@[k as int] as int]).columns)
                            != upper_names(idxs[i as int].columns));
                    }
                    k = k + 1;
                }
            }
            if dup {
                keep = false;
            } else {
                proof {
                    if exists|j: int|
                        0 <= j < i && spec_kept_flags(t, i as int)[j] && upper_names(
                            (#[trigger] idxs[j]).columns,
                        ) == upper_names(idxs[i as int].columns) {
                        let j = choose|j: int|
                            0 <= j < i && spec_kept_flags(t, i as int)[j] && upper_names(
                                (#[trigger] idxs[j]).columns,
                            ) == upper_names(idxs[i as int].columns);
                        let k0 = choose|k0: int|
                            0 <= k0 < seen@.len() && #[trigger] seen@[k0] == j;
                        assert(upper_names((#[trigger] idxs[seen@[k0] as int]).columns)
                            != upper_names(idxs[i as int].columns));
                        assert(false);
                    }
                }
            }
        }
        proof {
            assert(keep == spec_kept_flags(t, i + 1)[i as int]);
        }
        let ghost old_seen = seen@;
        if keep {
            let name = normalize_index_name(table.name.as_str(), index);
            let mut stmt = if index.unique {
                String::from_str("CREATE UNIQUE INDEX ")
            } else {
                String::from_str("CREATE INDEX ")
            };
            let nid = quote_identifier(name.as_str());
            stmt.append(nid.as_str());
            stmt.append(" ON ");
            let tid = quote_identifier(table.name.as_str());
            stmt.append(tid.as_str());
            stmt.append(" (");
            let cols = quoted_cols(&index.columns);
            stmt.append(cols.as_str());
            stmt.append(");");
            let ghost old_r = r.deep_view();
            r.push(stmt);
            seen.push(i);
            proof {
                assert(r.deep_view() =~~= old_r.push(spec_index_stmt(t.name, idxs[i as int])));
            }
        }
        proof {
            assert forall|k: int|
                0 <= k < seen@.len() implies 0 <= #[trigger] seen@[k] < i + 1 && spec_kept_flags(
                t,
                i + 1,
            )[seen@[k] as int] by {
                if k < old_seen.len() {
                    assert(seen@[k] == old_seen[k]);
                } else {
                    assert(seen@[k] == i);
                }
            }
            assert forall|j: int|
                #![trigger spec_kept_flags(t, i + 1)[j]]
                0 <= j < i + 1 && spec_kept_flags(t, i + 1)[j] implies exists|k: int|
                0 <= k < seen@.len() && #[trigger] seen@[k] == j by {
                if j < i {
                    assert(spec_kept_flags(t, i as int)[j]);
                    let k = choose|k: int| 0 <= k < old_seen.len() && #[trigger] old_seen[k] == j;
                    assert(seen@[k] == j);
                } else {
                    assert(keep);
                    assert(seen@[seen@.len() - 1] == i);
                }
            }
        }
        i = i + 1;
    }
    r
}

/// Whether two column lists are equal after case folding, order kept.
fn eq_upper_names_exec(a: &Vec<String>, b: &Vec<String>) -> (r: bool)
    ensures
        r == (upper_names(a.deep_view()) == upper_names(b.deep_view())),
{
    let ghost av = a.deep_view();
    let ghost bv = b.deep_view();
    if a.len() != b.len() {
        proof {
            assert(upper_names(av).len() == av.len());
            assert(upper_names(bv).len() == bv.len());
        }
        return false;
    }
    let mut i: usize = 0;
    while i < a.len()
        invariant
            av == a.deep_view(),
            bv == b.deep_view(),
            av.len() == a@.len(),
            bv.len() == a@.len(),
            i <= a@.len(),
            forall|j: int| 0 <= j < i ==> upper_seq(#[trigger] av[j]) == upper_seq(bv[j]),
        decreases a@.len() - i,
    {
        proof {
            assert(av[i as int] == a@[i as int]@);
            assert(bv[i as int] == b@[i as int]@);
        }
        let cv = chars_of(a[i].as_str());
        if !crate::text::eq_str_ci(&cv, b[i].as_str()) {
            proof {
                assert(upper_names(av)[i as int] == upper_seq(av[i as int]));
                assert(upper_names(bv)[i as int] == upper_seq(bv[i as int]));
            }
            return false;
        }
        i = i + 1;
    }
    proof {
        assert(upper_names(av) =~= upper_names(bv)) by {
            assert(forall|j: int|
                0 <= j < av.len() ==> upper_names(av)[j] == upper_seq(#[trigger] av[j])
                    && upper_names(bv)[j] == upper_seq(bv[j]));
        }
    }
    true
}

/// An index whose column set equals the primary key's (or any non-empty
/// unique constraint's) is never retained, regardless of its declared
/// uniqueness: no statement is emitted for it.
pub proof fn lemma_no_index_on_reserved_columns(t: crate::model::TableDetailsView, i: int)
    requires
        0 <= i < t.indexes.len(),
        spec_kept_flags(t, t.indexes.len() as int)[i],
    ensures
        t.primary_keys.len() > 0 ==> !same_column_set(t.indexes[i].columns, t.primary_keys),
        forall|k: int|
            0 <= k < t.unique_constraints.len() && (#[trigger] t.unique_constraints[k]).columns.len()
                > 0 ==> !same_column_set(t.indexes[i].columns, t.unique_constraints[k].columns),
{
    lemma_kept_flags_len(t, t.indexes.len() as int);
    lemma_kept_flags_prefix(t, i + 1, t.indexes.len() as int);
    lemma_kept_flags_len(t, i + 1);
    assert(spec_kept_flags(t, t.indexes.len() as int).take(i + 1) == spec_kept_flags(t, i + 1));
    assert(spec_kept_flags(t, t.indexes.len() as int)[i] == spec_kept_flags(t, i + 1)[i]);
    assert(!spec_index_reserved(t, t.indexes[i].columns));
}

/// At most one statement is emitted per distinct ordered case-folded
/// column list: two different retained indexes never share one, even when
/// the catalog reports duplicates under different names.
pub proof fn lemma_index_dedup(t: crate::model::TableDetailsView, i: int, j: int)
    requires
        0 <= i < j < t.indexes.len(),
        spec_kept_flags(t, t.indexes.len() as int)[i],
        spec_kept_flags(t, t.indexes.len() as int)[j],
    ensures
        upper_names(t.indexes[i].columns) != upper_names(t.indexes[j].columns),
{
    let n = t.indexes.len() as int;
    lemma_kept_flags_len(t, n);
    lemma_kept_flags_prefix(t, j + 1, n);
    lemma_kept_flags_len(t, j + 1);
    assert(spec_kept_flags(t, n)[j] == spec_kept_flags(t, j + 1)[j]);
    lemma_kept_flags_prefix(t, i + 1, j);
    lemma_kept_flags_len(t, j);
    lemma_kept_flags_len(t, i + 1);
    assert(spec_kept_flags(t, j)[i] == spec_kept_flags(t, i + 1)[i]);
    lemma_kept_flags_prefix(t, i + 1, n);
    assert(spec_kept_flags(t, n)[i] == spec_kept_flags(t, i + 1)[i]);
    if upper_names(t.indexes[i].columns) == upper_names(t.indexes[j].columns) {
        assert(0 <= i < j && spec_kept_flags(t, j)[i] && upper_names(
            (#[trigger] t.indexes[i]).columns,
        ) == upper_names(t.indexes[j].columns));
        assert(!spec_kept_flags(t, j + 1)[j]);
    }
}

} // verus!

verus! {

/// A bare `NEW.` / `OLD.` reference begins at `i`: the three letters in
/// any case, a dot, and no word character or colon immediately before.
pub open spec fn spec_new_ref_at(s: Seq<char>, i: int) -> bool {
    i + 4 <= s.len() && upper_char(s[i]) == 'N' && upper_char(s[i + 1]) == 'E' && upper_char(
        s[i + 2],
    ) == 'W' && s[i + 3] == '.' && (i == 0 || !(is_word_char(s[i - 1]) || s[i - 1] == ':'))
}

pub open spec fn spec_old_ref_at(s: Seq<char>, i: int) -> bool {
    i + 4 <= s.len() && upper_char(s[i]) == 'O' && upper_char(s[i + 1]) == 'L' && upper_char(
        s[i + 2],
    ) == 'D' && s[i + 3] == '.' && (i == 0 || !(is_word_char(s[i - 1]) || s[i - 1] == ':'))
}

/// The text from position `i` on, with bare `NEW.`/`OLD.` references
/// rewritten to bind-variable form.
pub open spec fn spec_rewrite_refs(s: Seq<char>, i: int) -> Seq<char>
    decreases s.len() - i,
{
    if i < 0 || i >= s.len() {
        Seq::empty()
    } else if spec_new_ref_at(s, i) {
        ":NEW."@ + spec_rewrite_refs(s, i + 4)
    } else if spec_old_ref_at(s, i) {
        ":OLD."@ + spec_rewrite_refs(s, i + 4)
    } else {
        seq![s[i]] + spec_rewrite_refs(s, i + 1)
    }
}

/// Rewrites bare `NEW.` / `OLD.` references to `:NEW.` / `:OLD.` unless
/// already prefixed or part of a longer word.
pub fn normalize_trigger_references(input: &str) -> (r: String)
    ensures
        r@ == spec_rewrite_refs(input@, 0),
{
    let v = chars_of(input);
    let mut out: Vec<char> = Vec::new();
    let mut i: usize = 0;
    let n = v.len();
    while i < n
        invariant
            v@ == input@,
            n == v@.len(),
            i <= n,
            spec_rewrite_refs(input@, 0) == out@ + spec_rewrite_refs(input@, i as int),
        decreases n - i,
    {
        let prev_ok = i == 0 || !(is_word_char_exec(v[i - 1]) || v[i - 1] == ':');
        if n - i >= 4 && prev_ok && v[i + 3] == '.' {
            let c0 = to_upper_char(v[i]);
            let c1 = to_upper_char(v[i + 1]);
            let c2 = to_upper_char(v[i + 2]);
            if c0 == 'N' && c1 == 'E' && c2 == 'W' {
                proof {
                    assert(spec_new_ref_at(input@, i as int));
                }
                crate::text::push_lit(&mut out, ":NEW.");
                i = i + 4;
                continue;
            }
            if c0 == 'O' && c1 == 'L' && c2 == 'D' {
                proof {
                    assert(spec_old_ref_at(input@, i as int));
                }
                crate::text::push_lit(&mut out, ":OLD.");
                i = i + 4;
                continue;
            }
        }
        out.push(v[i]);
        i = i + 1;
    }
    string_of(&out)
}

/// Ensures the statement ends with a semicolon, and in script mode with a
/// `/` delimiter on its own line.
pub open spec fn spec_apply_terminator(s: Seq<char>, terminator: TriggerTerminator) -> Seq<char> {
    let te = trim_end_spec(s);
    let s1 = if !(te.len() > 0 && te.last() == ';') {
        s.push(';')
    } else {
        s
    };
    if terminator is Script {
        let te1 = trim_end_spec(s1);
        if !(te1.len() > 0 && te1.last() == '/') {
            (if !(s1.len() > 0 && s1.last() == '\n') {
                s1.push('\n')
            } else {
                s1
            }).push('/')
        } else {
            s1
        }
    } else {
        s1
    }
}

/// Appends the statement terminator the selected mode calls for.
pub fn apply_trigger_terminator(stmt: &mut String, terminator: TriggerTerminator)
    ensures
        final(stmt)@ == spec_apply_terminator(old(stmt)@, terminator),
{
    let v = chars_of(stmt.as_str());
    let te = crate::text::trim_end_vec(&v);
    if !(te.len() > 0 && te[te.len() - 1] == ';') {
        proof {
            if te@.len() > 0 {
                assert(te@.last() == te@[te@.len() - 1]);
            }
        }
        crate::text::push_char(stmt, ';');
    } else {
        proof {
            assert(te@.last() == te@[te@.len() - 1]);
        }
    }
    if matches!(terminator, TriggerTerminator::Script) {
        let v1 = chars_of(stmt.as_str());
        let te1 = crate::text::trim_end_vec(&v1);
        if !(te1.len() > 0 && te1[te1.len() - 1] == '/') {
            proof {
                if te1@.len() > 0 {
                    assert(te1@.last() == te1@[te1@.len() - 1]);
                }
            }
            if !(v1.len() > 0 && v1[v1.len() - 1] == '\n') {
                proof {
                    if v1@.len() > 0 {
                        assert(v1@.last() == v1@[v1@.len() - 1]);
                    }
                }
                crate::text::push_char(stmt, '\n');
            } else {
                proof {
                    assert(v1@.last() == v1@[v1@.len() - 1]);
                }
            }
            crate::text::push_char(stmt, '/');
        } else {
            proof {
                assert(te1@.last() == te1@[te1@.len() - 1]);
            }
        }
    }
}

} // verus!

verus! {

/// The upper-cased, fully trimmed text of a line.
pub open spec fn line_u(line: Seq<char>) -> Seq<char> {
    upper_seq(trim_start_spec(trim_end_spec(line)))
}

pub open spec fn spec_is_select_start(line: Seq<char>) -> bool {
    has_prefix(upper_seq(trim_start_spec(trim_end_spec(line))), "SELECT "@)
}

/// The first `INTO`-starting line at or after `j`, stopping at a statement
/// terminator or another SELECT.
pub open spec fn spec_find_into(lines: Seq<Seq<char>>, j: int) -> Option<int>
    decreases lines.len() - j,
{
    if j < 0 || j >= lines.len() {
        None
    } else {
        let u = line_u(lines[j]);
        if has_prefix(u, "INTO "@) {
            Some(j)
        } else if (u.len() > 0 && u.last() == ';') || has_prefix(u, "SELECT "@) {
            None
        } else {
            spec_find_into(lines, j + 1)
        }
    }
}

/// The last line of a SELECT ... INTO statement: scanning from `j` with
/// parenthesis depth `depth`, the statement ends before the first
/// depth-zero barrier line.
pub open spec fn spec_stmt_end(lines: Seq<Seq<char>>, j: int, end: int, depth: int) -> int
    decreases lines.len() - j,
{
    if j < 0 || j >= lines.len() {
        end
    } else {
        let line = trim_start_spec(trim_end_spec(lines[j]));
        let u = upper_seq(line);
        let d2 = depth + count_char(line, '(') - count_char(line, ')');
        if d2 == 0 && ((u.len() > 0 && u.last() == ';') || has_prefix(u, "SELECT "@) || has_prefix(
            u,
            "INSERT "@,
        ) || has_prefix(u, "UPDATE "@) || has_prefix(u, "DELETE "@) || has_substring(u, ":NEW."@)
            || has_substring(u, ":OLD."@) || has_substring(u, ":="@) || has_prefix(u, "END"@)) {
            end
        } else {
            spec_stmt_end(lines, j + 1, j, d2)
        }
    }
}

/// The range of lines covered by a SELECT ... INTO statement starting at
/// line `i`, when there is one.
pub open spec fn spec_sel_end(lines: Seq<Seq<char>>, i: int) -> Option<int> {
    if 0 <= i < lines.len() && spec_is_select_start(lines[i]) {
        match spec_find_into(lines, i + 1) {
            Some(into) => Some(spec_stmt_end(lines, into + 1, into, 0)),
            None => None,
        }
    } else {
        None
    }
}

/// Whether line `k` belongs to some SELECT ... INTO span.
pub open spec fn spec_marked(lines: Seq<Seq<char>>, k: int) -> bool {
    exists|i: int|
        0 <= i <= k && ((#[trigger] spec_sel_end(lines, i)) matches Some(e) && k <= e)
}

/// Whether line `k` is the last line of its SELECT ... INTO span.
pub open spec fn spec_last_marked(lines: Seq<Seq<char>>, k: int) -> bool {
    spec_marked(lines, k) && (k + 1 >= lines.len() || !spec_marked(lines, k + 1))
}

/// Cumulative parenthesis depth over the first `k` lines.
pub open spec fn spec_depth_through(lines: Seq<Seq<char>>, k: int) -> int
    decreases k,
{
    if k <= 0 {
        0
    } else {
        spec_depth_through(lines, k - 1) + count_char(trim_end_spec(lines[k - 1]), '(')
            - count_char(trim_end_spec(lines[k - 1]), ')')
    }
}

/// Whether a semicolon is appended to line `k`: the line must be a
/// depth-zero statement line (or the last line of a SELECT ... INTO span)
/// that neither already ends in a semicolon nor starts with a control-flow
/// keyword.
pub open spec fn spec_needs_semi(lines: Seq<Seq<char>>, k: int) -> bool {
    let u = line_u(lines[k]);
    &&& u.len() > 0
    &&& !(u.last() == ';')
    &&& spec_depth_through(lines, k) == 0
    &&& spec_depth_through(lines, k + 1) == 0
    &&& (!spec_marked(lines, k) || spec_last_marked(lines, k))
    &&& !has_prefix(u, "CREATE "@)
    &&& !has_prefix(u, "DECLARE"@)
    &&& !has_prefix(u, "WHEN "@)
    &&& !has_prefix(u, "IF "@)
    &&& !has_prefix(u, "ELSIF "@)
    &&& !has_prefix(u, "ELSE"@)
    &&& !has_prefix(u, "FOR "@)
    &&& !has_prefix(u, "WHILE "@)
    &&& !has_prefix(u, "LOOP"@)
    &&& !has_prefix(u, "BEGIN"@)
    &&& !has_prefix(u, "END"@)
    &&& !has_prefix(u, "EXCEPTION"@)
    &&& !has_prefix(u, "THEN"@)
    &&& {
        ||| has_prefix(u, "SELECT "@)
        ||| has_prefix(u, "INSERT "@)
        ||| has_prefix(u, "UPDATE "@)
        ||| has_prefix(u, "DELETE "@)
        ||| has_prefix(u, "INTO "@)
        ||| has_prefix(u, "NULL"@)
        ||| has_prefix(u, "RAISE"@)
        ||| has_substring(u, ":NEW."@)
        ||| has_substring(u, ":OLD."@)
        ||| has_substring(u, ":="@)
        ||| spec_last_marked(lines, k)
    }
}

/// Line `k` of the normalized body.
pub open spec fn spec_out_line(lines: Seq<Seq<char>>, k: int) -> Seq<char> {
    let t = trim_end_spec(lines[k]);
    if spec_needs_semi(lines, k) {
        t.push(';')
    } else {
        t
    }
}

/// The normalized trigger body: semicolons re-derived line by line, and a
/// final bare `END` terminated.
pub open spec fn spec_normalize_trigger_body(body: Seq<char>) -> Seq<char> {
    let lines = split_lines(body);
    let out = Seq::new(lines.len(), |k: int| spec_out_line(lines, k));
    let fixed = if out.len() > 0 && upper_seq(trim_start_spec(trim_end_spec(out.last())))
        == "END"@ && !(out.last().len() > 0 && out.last().last() == ';') {
        out.update(out.len() - 1, out.last().push(';'))
    } else {
        out
    };
    seq_join(fixed, "\n"@)
}

/// Total length of a sequence of lines.
pub open spec fn sum_lens(lines: Seq<Seq<char>>) -> int
    decreases lines.len(),
{
    if lines.len() == 0 {
        0
    } else {
        sum_lens(lines.drop_last()) + lines.last().len()
    }
}

proof fn lemma_count_char_le_len(s: Seq<char>, c: char)
    ensures
        0 <= count_char(s, c) <= s.len(),
    decreases s.len(),
{
    if s.len() > 0 {
        lemma_count_char_le_len(s.drop_last(), c);
    }
}

proof fn lemma_sum_lens_prefix(lines: Seq<Seq<char>>, k: int)
    requires
        0 <= k <= lines.len(),
    ensures
        0 <= sum_lens(lines.take(k)) <= sum_lens(lines),
        k < lines.len() ==> sum_lens(lines.take(k)) + lines[k].len() == sum_lens(lines.take(k + 1)),
    decreases lines.len() + lines.len() - k,
{
    if lines.len() == 0 {
        assert(lines.take(k) =~= lines);
    } else if k == lines.len() {
        assert(lines.take(k) =~= lines);
        lemma_sum_lens_prefix(lines.drop_last(), lines.len() - 1);
    } else {
        lemma_sum_lens_prefix(lines.drop_last(), k);
        assert(lines.drop_last().take(k) =~= lines.take(k));
        if k + 1 < lines.len() {
            assert(lines.drop_last().take(k + 1) =~= lines.take(k + 1));
            assert(lines.drop_last()[k] == lines[k]);
        } else {
            assert(lines.take(k + 1) =~= lines);
            assert(lines.take(k + 1).drop_last() =~= lines.take(k));
        }
    }
}

proof fn lemma_split_on_sum(s: Seq<char>, sep: char)
    ensures
        sum_lens(split_on(s, sep)) <= s.len(),
    decreases s.len(),
{
    if s.len() == 0 {
        let r0 = seq![Seq::<char>::empty()];
        assert(split_on(s, sep) == r0);
        assert(r0.drop_last() =~= Seq::<Seq<char>>::empty());
        assert(sum_lens(r0.drop_last()) == 0);
        assert(sum_lens(r0) == 0);
    } else {
        lemma_split_on_sum(s.drop_last(), sep);
        let r = split_on(s.drop_last(), sep);
        crate::text::lemma_split_on_len(s.drop_last(), sep);
        if s.last() == sep {
            let r3 = r.push(Seq::<char>::empty());
            assert(split_on(s, sep) == r3);
            assert(r3.drop_last() =~= r);
            assert(r3.last() =~= Seq::<char>::empty());
            assert(sum_lens(r3) == sum_lens(r));
        } else {
            let r2 = r.update(r.len() - 1, r.last().push(s.last()));
            assert(split_on(s, sep) == r2);
            assert(r2.drop_last() =~= r.drop_last());
            assert(r2.len() == r.len());
            assert(r2.last() == r.last().push(s.last()));
            assert(sum_lens(r2) == sum_lens(r.drop_last()) + r.last().len() + 1);
            assert(sum_lens(r) == sum_lens(r.drop_last()) + r.last().len());
        }
    }
}

proof fn lemma_sum_lens_map_le(a: Seq<Seq<char>>, b: Seq<Seq<char>>)
    requires
        a.len() == b.len(),
        forall|i: int| 0 <= i < a.len() ==> (#[trigger] a[i]).len() <= b[i].len(),
    ensures
        sum_lens(a) <= sum_lens(b),
    decreases a.len(),
{
    if a.len() > 0 {
        lemma_sum_lens_map_le(a.drop_last(), b.drop_last());
        assert(a.last() == a[a.len() - 1]);
        assert(b.last() == b[b.len() - 1]);
    }
}

proof fn lemma_split_lines_sum(s: Seq<char>)
    ensures
        0 <= sum_lens(split_lines(s)) <= s.len(),
{
    let lines = split_lines(s);
    lemma_sum_lens_prefix(lines, lines.len() as int);
    assert(lines.take(lines.len() as int) =~= lines);
    if s.len() == 0 {
    } else {
        let p = split_on(s, '\n');
        lemma_split_on_sum(s, '\n');
        crate::text::lemma_split_on_len(s, '\n');
        let q = if p.last().len() == 0 {
            p.drop_last()
        } else {
            p
        };
        if p.last().len() == 0 {
            lemma_sum_lens_prefix(p, p.len() - 1);
            assert(p.take(p.len() - 1) =~= p.drop_last());
        }
        let mapped = q.map_values(|l: Seq<char>| crate::text::strip_cr(l));
        assert(mapped.len() == q.len());
        assert(forall|i: int|
            0 <= i < mapped.len() ==> (#[trigger] mapped[i]).len() <= q[i].len());
        lemma_sum_lens_map_le(mapped, q);
        if p.last().len() != 0 {
            assert(q == p);
        }
        assert(lines == mapped);
    }
}

} // verus!

verus! {

/// Computes the upper-cased fully trimmed text of a line.
fn line_u_exec(line: &Vec<char>) -> (r: Vec<char>)
    ensures
        r@ == line_u(line@),
{
    let te = crate::text::trim_end_vec(line);
    let ts = crate::text::trim_start_vec(&te);
    upper_vec(&ts)
}

/// Searches for the INTO line of a SELECT statement.
fn find_into_exec(lines_exec: &Vec<Vec<char>>, start: usize) -> (r: Option<usize>)
    ensures
        match r {
            Some(p) => start <= p < lines_exec@.len() && spec_find_into(
                lines_exec.deep_view(),
                start as int,
            ) == Some(p as int),
            None => spec_find_into(lines_exec.deep_view(), start as int) is None,
        },
{
    let ghost dv = lines_exec.deep_view();
    let mut j: usize = start;
    while j < lines_exec.len()
        invariant
            dv == lines_exec.deep_view(),
            dv.len() == lines_exec@.len(),
            start <= j,
            spec_find_into(dv, start as int) == spec_find_into(dv, j as int),
        decreases lines_exec@.len() - j,
    {
        proof {
            assert(dv[j as int] =~= lines_exec@[j as int]@);
        }
        let u = line_u_exec(&lines_exec[j]);
        if starts_with_lit(&u, "INTO ") {
            return Some(j);
        }
        if (u.len() > 0 && u[u.len() - 1] == ';') || starts_with_lit(&u, "SELECT ") {
            proof {
                if u@.len() > 0 {
                    assert(u@.last() == u@[u@.len() - 1]);
                }
            }
            return None;
        }
        proof {
            assert(u@.last() == u@[u@.len() - 1]) by {
                assert(u@.len() > 0 || u@.len() == 0);
                if u@.len() > 0 {
                }
            }
        }
        j = j + 1;
    }
    None
}

/// Scans for the last line of a SELECT ... INTO statement.
fn stmt_end_exec(lines_exec: &Vec<Vec<char>>, into: usize) -> (e: usize)
    requires
        into < lines_exec@.len(),
        sum_lens(lines_exec.deep_view()) <= usize::MAX,
    ensures
        e as int == spec_stmt_end(lines_exec.deep_view(), into + 1, into as int, 0),
        into <= e < lines_exec@.len(),
{
    let ghost dv = lines_exec.deep_view();
    let n = lines_exec.len();
    let mut j: usize = into + 1;
    let mut end: usize = into;
    let mut depth: i128 = 0;
    proof {
        lemma_sum_lens_prefix(dv, j as int);
    }
    while j < lines_exec.len()
        invariant
            dv == lines_exec.deep_view(),
            dv.len() == lines_exec@.len(),
            sum_lens(dv) <= usize::MAX,
            into < j,
            into <= end < dv.len(),
            spec_stmt_end(dv, into + 1, into as int, 0) == spec_stmt_end(
                dv,
                j as int,
                end as int,
                depth as int,
            ),
            -sum_lens(dv.take(j as int)) <= depth <= sum_lens(dv.take(j as int)),
            sum_lens(dv.take(j as int)) <= sum_lens(dv),
        decreases lines_exec@.len() - j,
    {
        proof {
            assert(dv[j as int] =~= lines_exec@[j as int]@);
            lemma_sum_lens_prefix(dv, j as int);
            lemma_sum_lens_prefix(dv, j + 1);
            crate::text::lemma_trim_end_len(dv[j as int]);
            crate::text::lemma_trim_start_len(trim_end_spec(dv[j as int]));
            lemma_count_char_le_len(trim_start_spec(trim_end_spec(dv[j as int])), '(');
            lemma_count_char_le_len(trim_start_spec(trim_end_spec(dv[j as int])), ')');
        }
        let te = crate::text::trim_end_vec(&lines_exec[j]);
        let line = crate::text::trim_start_vec(&te);
        let u = upper_vec(&line);
        let opens = crate::text::count_char_in(&line, '(');
        let closes = crate::text::count_char_in(&line, ')');
        let d2: i128 = depth + opens as i128 - closes as i128;
        let barrier = (u.len() > 0 && u[u.len() - 1] == ';') || starts_with_lit(&u, "SELECT ")
            || starts_with_lit(&u, "INSERT ") || starts_with_lit(&u, "UPDATE ") || starts_with_lit(
            &u,
            "DELETE ",
        ) || contains_lit(&u, ":NEW.") || contains_lit(&u, ":OLD.") || contains_lit(&u, ":=")
            || starts_with_lit(&u, "END");
        proof {
            if u@.len() > 0 {
                assert(u@.last() == u@[u@.len() - 1]);
            }
        }
        if d2 == 0 && barrier {
            return end;
        }
        end = j;
        depth = d2;
        j = j + 1;
    }
    end
}

/// Sets `flags[from..=to]`.
fn mark_range(flags: &mut Vec<bool>, from: usize, to: usize)
    requires
        from <= to < old(flags)@.len(),
    ensures
        final(flags)@.len() == old(flags)@.len(),
        forall|k: int|
            0 <= k < final(flags)@.len() ==> #[trigger] final(flags)@[k] == (old(flags)@[k] || from
                <= k <= to),
{
    let mut k: usize = from;
    while k < to
        invariant
            from <= k <= to,
            to < flags@.len(),
            flags@.len() == old(flags)@.len(),
            forall|m: int|
                0 <= m < flags@.len() ==> #[trigger] flags@[m] == (old(flags)@[m] || from <= m < k),
        decreases to - k,
    {
        flags.set(k, true);
        k = k + 1;
    }
    flags.set(to, true);
}

/// Marks every line that belongs to a SELECT ... INTO span.
fn mark_select_into(lines_exec: &Vec<Vec<char>>) -> (flags: Vec<bool>)
    requires
        sum_lens(lines_exec.deep_view()) <= usize::MAX,
    ensures
        flags@.len() == lines_exec@.len(),
        forall|k: int|
            0 <= k < flags@.len() ==> #[trigger] flags@[k] == spec_marked(
                lines_exec.deep_view(),
                k,
            ),
{
    let ghost dv = lines_exec.deep_view();
    let n = lines_exec.len();
    let mut flags: Vec<bool> = Vec::new();
    let mut z: usize = 0;
    while z < n
        invariant
            z <= n,
            flags@.len() == z,
            forall|k: int| 0 <= k < z ==> !(#[trigger] flags@[k]),
        decreases n - z,
    {
        flags.push(false);
        z = z + 1;
    }
    let mut i: usize = 0;
    while i < n
        invariant
            dv == lines_exec.deep_view(),
            dv.len() == lines_exec@.len(),
            n == dv.len(),
            sum_lens(dv) <= usize::MAX,
            i <= n,
            flags@.len() == n,
            forall|k: int|
                0 <= k < n ==> #[trigger] flags@[k] == (exists|i0: int|
                    0 <= i0 < i && i0 <= k && ((#[trigger] spec_sel_end(dv, i0)) matches Some(e)
                        && k <= e)),
        decreases n - i,
    {
        proof {
            assert(dv[i as int] =~= lines_exec@[i as int]@);
        }
        let u = line_u_exec(&lines_exec[i]);
        let mut covered = false;
        let ghost old_flags = flags@;
        if starts_with_lit(&u, "SELECT ") {
            match find_into_exec(lines_exec, i + 1) {
                Some(into) => {
                    let e = stmt_end_exec(lines_exec, into);
                    proof {
                        assert(spec_sel_end(dv, i as int) == Some(e as int));
                    }
                    mark_range(&mut flags, i, e);
                    covered = true;
                },
                None => {
                    proof {
                        assert(spec_sel_end(dv, i as int) is None);
                    }
                },
            }
        } else {
            proof {
                assert(spec_sel_end(dv, i as int) is None);
            }
        }
        proof {
            assert forall|k: int| 0 <= k < n implies #[trigger] flags@[k] == (exists|i0: int|
                0 <= i0 < i + 1 && i0 <= k && ((#[trigger] spec_sel_end(dv, i0)) matches Some(e)
                    && k <= e)) by {
                if spec_sel_end(dv, i as int) is Some {
                    let e = spec_sel_end(dv, i as int).unwrap();
                    if old_flags[k] || (i <= k <= e) {
                        if old_flags[k] {
                            let i0 = choose|i0: int|
                                0 <= i0 < i && i0 <= k && ((#[trigger] spec_sel_end(dv, i0))
                                    matches Some(e2) && k <= e2);
                            assert(0 <= i0 < i + 1 && i0 <= k && ((#[trigger] spec_sel_end(
                                dv,
                                i0,
                            )) matches Some(e2) && k <= e2));
                        } else {
                            assert(0 <= i < i + 1 && i <= k && ((#[trigger] spec_sel_end(dv, i as int))
                                matches Some(e2) && k <= e2));
                        }
                        assert(flags@[k]);
                    } else {
                        if flags@[k] {
                            assert(false);
                        }
                        if exists|i0: int|
                            0 <= i0 < i + 1 && i0 <= k && ((#[trigger] spec_sel_end(dv, i0))
                                matches Some(e2) && k <= e2) {
                            let i0 = choose|i0: int|
                                0 <= i0 < i + 1 && i0 <= k && ((#[trigger] spec_sel_end(dv, i0))
                                    matches Some(e2) && k <= e2);
                            assert(i0 < i || i0 == i);
                            assert(false);
                        }
                    }
                } else {
                    assert(flags@ == old_flags);
                    if exists|i0: int|
                        0 <= i0 < i + 1 && i0 <= k && ((#[trigger] spec_sel_end(dv, i0))
                            matches Some(e2) && k <= e2) {
                        let i0 = choose|i0: int|
                            0 <= i0 < i + 1 && i0 <= k && ((#[trigger] spec_sel_end(dv, i0))
                                matches Some(e2) && k <= e2);
                        assert(i0 < i);
                    }
                }
            }
        }
        i = i + 1;
    }
    proof {
        assert(forall|k: int|
            0 <= k < n ==> #[trigger] flags@[k] == spec_marked(dv, k)) by {
            assert forall|k: int| 0 <= k < n implies #[trigger] flags@[k] == spec_marked(dv, k) by {
                if flags@[k] {
                    let i0 = choose|i0: int|
                        0 <= i0 < n && i0 <= k && ((#[trigger] spec_sel_end(dv, i0)) matches Some(
                            e,
                        ) && k <= e);
                    assert(spec_marked(dv, k));
                } else {
                    if spec_marked(dv, k) {
                        let i0 = choose|i0: int|
                            0 <= i0 <= k && ((#[trigger] spec_sel_end(dv, i0)) matches Some(e) && k
                                <= e);
                        assert(i0 < n);
                        assert(false);
                    }
                }
            }
        }
    }
    flags
}

} // verus!

verus! {

/// Re-derives statement-terminating semicolons for a procedural trigger
/// body: line by line, tracking cumulative parenthesis depth, marking
/// multi-line SELECT ... INTO spans so only their last line is terminated,
/// and withholding semicolons on control-flow keywords; a final bare END
/// is always terminated.
pub fn normalize_trigger_body(body: &str) -> (r: String)
    ensures
        r@ == spec_normalize_trigger_body(body@),
{
    let v = chars_of(body);
    let lines_exec = crate::text::lines_of(&v);
    let ghost lines = split_lines(body@);
    proof {
        lemma_split_lines_sum(body@);
        assert(v@.len() <= usize::MAX) by {
            assert(v@ == body@);
        }
    }
    let flags = mark_select_into(&lines_exec);
    let n = lines_exec.len();
    let mut out: Vec<String> = Vec::new();
    let mut depth: i128 = 0;
    let mut k: usize = 0;
    proof {
        lemma_sum_lens_prefix(lines, 0);
    }
    while k < n
        invariant
            lines == lines_exec.deep_view(),
            lines.len() == lines_exec@.len(),
            n == lines.len(),
            sum_lens(lines) <= usize::MAX,
            flags@.len() == n,
            forall|m: int| 0 <= m < n ==> #[trigger] flags@[m] == spec_marked(lines, m),
            k <= n,
            out@.len() == k,
            forall|m: int| 0 <= m < k ==> #[trigger] out@[m]@ == spec_out_line(lines, m),
            depth == spec_depth_through(lines, k as int),
            -sum_lens(lines.take(k as int)) <= depth <= sum_lens(lines.take(k as int)),
            sum_lens(lines.take(k as int)) <= sum_lens(lines),
        decreases n - k,
    {
        proof {
            assert(lines[k as int] =~= lines_exec@[k as int]@);
            lemma_sum_lens_prefix(lines, k as int);
            lemma_sum_lens_prefix(lines, k + 1);
            crate::text::lemma_trim_end_len(lines[k as int]);
            lemma_count_char_le_len(trim_end_spec(lines[k as int]), '(');
            lemma_count_char_le_len(trim_end_spec(lines[k as int]), ')');
        }
        let t = crate::text::trim_end_vec(&lines_exec[k]);
        let ts = crate::text::trim_start_vec(&t);
        let u = upper_vec(&ts);
        let opens = crate::text::count_char_in(&t, '(');
        let closes = crate::text::count_char_in(&t, ')');
        let d2: i128 = depth + opens as i128 - closes as i128;
        proof {
            assert(d2 == spec_depth_through(lines, k + 1));
        }
        let marked = flags[k];
        let last_marked = marked && (k + 1 >= n || !flags[k + 1]);
        proof {
            assert(last_marked == spec_last_marked(lines, k as int));
        }
        let mut needs = u.len() > 0 && !(u[u.len() - 1] == ';') && depth == 0 && d2 == 0 && (!marked
            || last_marked);
        proof {
            if u@.len() > 0 {
                assert(u@.last() == u@[u@.len() - 1]);
            }
        }
        if needs {
            needs = !starts_with_lit(&u, "CREATE ") && !starts_with_lit(&u, "DECLARE")
                && !starts_with_lit(&u, "WHEN ") && !starts_with_lit(&u, "IF ")
                && !starts_with_lit(&u, "ELSIF ") && !starts_with_lit(&u, "ELSE")
                && !starts_with_lit(&u, "FOR ") && !starts_with_lit(&u, "WHILE ")
                && !starts_with_lit(&u, "LOOP") && !starts_with_lit(&u, "BEGIN")
                && !starts_with_lit(&u, "END") && !starts_with_lit(&u, "EXCEPTION")
                && !starts_with_lit(&u, "THEN");
        }
        if needs {
            needs = starts_with_lit(&u, "SELECT ") || starts_with_lit(&u, "INSERT ")
                || starts_with_lit(&u, "UPDATE ") || starts_with_lit(&u, "DELETE ")
                || starts_with_lit(&u, "INTO ") || starts_with_lit(&u, "NULL") || starts_with_lit(
                &u,
                "RAISE",
            ) || contains_lit(&u, ":NEW.") || contains_lit(&u, ":OLD.") || contains_lit(&u, ":=")
                || last_marked;
        }
        proof {
            assert(needs == spec_needs_semi(lines, k as int));
        }
        let mut line_out = string_of(&t);
        if needs {
            crate::text::push_char(&mut line_out, ';');
        }
        out.push(line_out);
        depth = d2;
        k = k + 1;
    }
    if out.len() > 0 {
        let last = &out[out.len() - 1];
        let lv = chars_of(last.as_str());
        let lu = line_u_exec(&lv);
        if eq_str(&lu, "END") && !(lv.len() > 0 && lv[lv.len() - 1] == ';') {
            proof {
                if lv@.len() > 0 {
                    assert(lv@.last() == lv@[lv@.len() - 1]);
                }
            }
            let mut fixed_last = string_of(&lv);
            crate::text::push_char(&mut fixed_last, ';');
            let ghost old_out = out@;
            let idx = out.len() - 1;
            out.set(idx, fixed_last);
            proof {
                assert(out@[idx as int]@ == old_out[idx as int]@.push(';'));
            }
        } else {
            proof {
                if lv@.len() > 0 {
                    assert(lv@.last() == lv@[lv@.len() - 1]);
                }
            }
        }
    }
    let r = join_strings(&out, "\n");
    proof {
        let outs = Seq::new(lines.len(), |m: int| spec_out_line(lines, m));
        let fixed = if outs.len() > 0 && upper_seq(trim_start_spec(trim_end_spec(outs.last())))
            == "END"@ && !(outs.last().len() > 0 && outs.last().last() == ';') {
            outs.update(outs.len() - 1, outs.last().push(';'))
        } else {
            outs
        };
        assert(out.deep_view() =~~= fixed) by {
            assert(forall|m: int|
                0 <= m < out@.len() ==> #[trigger] out.deep_view()[m] == out@[m]@);
        }
    }
    r
}

} // verus!

verus! {

/// Scans the tail of the first WHEN line, starting at its opening
/// parenthesis with depth 0: collects the clause text inside the outer
/// parentheses (nested ones included), reports whether the clause closed
/// on this line, and the open depth it leaves behind.
pub open spec fn scan_first(s: Seq<char>, j: int, d: int) -> (Seq<char>, bool, int)
    decreases s.len() - j,
{
    if j < 0 || j >= s.len() {
        (Seq::empty(), false, d)
    } else {
        let c = s[j];
        if c == '(' {
            let rec = scan_first(s, j + 1, d + 1);
            ((if d + 1 > 1 {
                seq![c] + rec.0
            } else {
                rec.0
            }), rec.1, rec.2)
        } else if c == ')' {
            if d - 1 == 0 {
                (Seq::empty(), true, 0)
            } else {
                let rec = scan_first(s, j + 1, d - 1);
                (seq![c] + rec.0, rec.1, rec.2)
            }
        } else {
            let rec = scan_first(s, j + 1, d);
            ((if d > 0 {
                seq![c] + rec.0
            } else {
                rec.0
            }), rec.1, rec.2)
        }
    }
}

/// Scans a continuation line of a multi-line WHEN clause with the carried
/// depth `d`: collects every character until the clause closes.
pub open spec fn scan_cont(s: Seq<char>, j: int, d: int) -> (Seq<char>, bool, int)
    decreases s.len() - j,
{
    if j < 0 || j >= s.len() {
        (Seq::empty(), false, d)
    } else {
        let c = s[j];
        if c == '(' {
            let rec = scan_cont(s, j + 1, d + 1);
            (seq![c] + rec.0, rec.1, rec.2)
        } else if c == ')' {
            if d - 1 == 0 {
                (Seq::empty(), true, 0)
            } else {
                let rec = scan_cont(s, j + 1, d - 1);
                (seq![c] + rec.0, rec.1, rec.2)
            }
        } else {
            let rec = scan_cont(s, j + 1, d);
            (seq![c] + rec.0, rec.1, rec.2)
        }
    }
}

fn scan_first_exec(t: &Vec<char>) -> (r: (Vec<char>, bool, i128))
    ensures
        r.0@ == scan_first(t@, 0, 0).0,
        r.1 == scan_first(t@, 0, 0).1,
        r.2 as int == scan_first(t@, 0, 0).2,
        -(t@.len() as i128) <= r.2 <= t@.len() as i128,
{
    let n = t.len();
    let mut acc: Vec<char> = Vec::new();
    let mut d: i128 = 0;
    let mut j: usize = 0;
    let mut closed = false;
    while j < n && !closed
        invariant
            n == t@.len(),
            j <= n,
            -(j as i128) <= d <= j as i128,
            !closed ==> scan_first(t@, 0, 0).0 == acc@ + scan_first(t@, j as int, d as int).0
                && scan_first(t@, 0, 0).1 == scan_first(t@, j as int, d as int).1 && scan_first(
                t@,
                0,
                0,
            ).2 == scan_first(t@, j as int, d as int).2,
            closed ==> scan_first(t@, 0, 0).0 == acc@ && scan_first(t@, 0, 0).1 == true
                && scan_first(t@, 0, 0).2 == 0 && d == 0,
        decreases n - j + (if closed {
            0int
        } else {
            1int
        }),
    {
        let c = t[j];
        if c == '(' {
            d = d + 1;
            if d > 1 {
                acc.push(c);
            }
            j = j + 1;
        } else if c == ')' {
            if d - 1 == 0 {
                closed = true;
                d = 0;
            } else {
                d = d - 1;
                acc.push(c);
                j = j + 1;
            }
        } else {
            if d > 0 {
                acc.push(c);
            }
            j = j + 1;
        }
    }
    (acc, closed, d)
}

fn scan_cont_exec(t: &Vec<char>, d0: i128) -> (r: (Vec<char>, bool, i128))
    requires
        -(usize::MAX as i128) <= d0 <= usize::MAX as i128,
    ensures
        r.0@ == scan_cont(t@, 0, d0 as int).0,
        r.1 == scan_cont(t@, 0, d0 as int).1,
        r.2 as int == scan_cont(t@, 0, d0 as int).2,
        d0 - (t@.len() as i128) <= r.2 <= d0 + (t@.len() as i128) || r.2 == 0,
{
    let n = t.len();
    let mut acc: Vec<char> = Vec::new();
    let mut d: i128 = d0;
    let mut j: usize = 0;
    let mut closed = false;
    while j < n && !closed
        invariant
            n == t@.len(),
            j <= n,
            d0 - (j as i128) <= d <= d0 + (j as i128) || (closed && d == 0),
            -(usize::MAX as i128) <= d0 <= usize::MAX as i128,
            !closed ==> scan_cont(t@, 0, d0 as int).0 == acc@ + scan_cont(t@, j as int, d as int).0
                && scan_cont(t@, 0, d0 as int).1 == scan_cont(t@, j as int, d as int).1
                && scan_cont(t@, 0, d0 as int).2 == scan_cont(t@, j as int, d as int).2,
            closed ==> scan_cont(t@, 0, d0 as int).0 == acc@ && scan_cont(t@, 0, d0 as int).1
                == true && scan_cont(t@, 0, d0 as int).2 == 0 && d == 0,
        decreases n - j + (if closed {
            0int
        } else {
            1int
        }),
    {
        let c = t[j];
        if c == '(' {
            d = d + 1;
            acc.push(c);
            j = j + 1;
        } else if c == ')' {
            if d - 1 == 0 {
                closed = true;
                d = 0;
            } else {
                d = d - 1;
                acc.push(c);
                j = j + 1;
            }
        } else {
            acc.push(c);
            j = j + 1;
        }
    }
    (acc, closed, d)
}

/// The line-level WHEN extraction state machine: lines before and after
/// the clause go to the body, the clause text is collected across lines.
pub open spec fn spec_extract(lines: Seq<Seq<char>>, k: int, in_when: bool, depth: int) -> (
    Seq<char>,
    Seq<Seq<char>>,
)
    decreases lines.len() - k,
{
    if k < 0 || k >= lines.len() {
        (Seq::empty(), Seq::empty())
    } else {
        let t = trim_start_spec(trim_end_spec(lines[k]));
        let u = upper_seq(t);
        if !in_when && has_prefix(u, "WHEN"@) && trim_start_spec(t.skip(4)).len() > 0
            && trim_start_spec(t.skip(4))[0] == '(' {
            let sc = scan_first(trim_start_spec(t.skip(4)), 0, 0);
            let rest = spec_extract(lines, k + 1, !sc.1, sc.2);
            (sc.0 + rest.0, rest.1)
        } else if in_when {
            let sc = scan_cont(t, 0, depth);
            let rest = spec_extract(lines, k + 1, !sc.1, sc.2);
            (sc.0 + (if !sc.1 {
                seq![' ']
            } else {
                Seq::empty()
            }) + rest.0, rest.1)
        } else {
            let rest = spec_extract(lines, k + 1, in_when, depth);
            (rest.0, seq![lines[k]] + rest.1)
        }
    }
}

/// The extracted WHEN clause (trimmed) and the body without it.
pub open spec fn spec_extract_when(body: Seq<char>) -> (Seq<char>, Seq<char>) {
    let lines = split_lines(body);
    let r = spec_extract(lines, 0, false, 0);
    (trim_start_spec(trim_end_spec(r.0)), seq_join(r.1, "\n"@))
}

} // verus!

verus! {

/// Splits an embedded `WHEN (...)` clause (tracking nested parentheses
/// across lines) out of a trigger body, returning the clause text and the
/// remaining body.
pub fn extract_when_clause(body: &str) -> (r: (String, String))
    ensures
        r.0@ == spec_extract_when(body@).0,
        r.1@ == spec_extract_when(body@).1,
{
    let v = chars_of(body);
    let vlen = v.len();
    let lines_exec = crate::text::lines_of(&v);
    let ghost lines = split_lines(body@);
    proof {
        lemma_split_lines_sum(body@);
        assert(v@ == body@);
        assert(vlen == body@.len());
    }
    let n = lines_exec.len();
    let mut when_acc: Vec<char> = Vec::new();
    let mut body_lines: Vec<String> = Vec::new();
    let mut in_when = false;
    let mut depth: i128 = 0;
    let mut k: usize = 0;
    proof {
        lemma_sum_lens_prefix(lines, 0);
    }
    while k < n
        invariant
            lines == lines_exec.deep_view(),
            lines.len() == lines_exec@.len(),
            n == lines.len(),
            sum_lens(lines) <= usize::MAX,
            k <= n,
            -sum_lens(lines.take(k as int)) <= depth as int <= sum_lens(lines.take(k as int)),
            sum_lens(lines.take(k as int)) <= sum_lens(lines),
            spec_extract(lines, 0, false, 0).0 == when_acc@ + spec_extract(
                lines,
                k as int,
                in_when,
                depth as int,
            ).0,
            spec_extract(lines, 0, false, 0).1 == body_lines.deep_view() + spec_extract(
                lines,
                k as int,
                in_when,
                depth as int,
            ).1,
        decreases n - k,
    {
        proof {
            assert(lines[k as int] =~= lines_exec@[k as int]@);
            lemma_sum_lens_prefix(lines, k as int);
            lemma_sum_lens_prefix(lines, k + 1);
            crate::text::lemma_trim_end_len(lines[k as int]);
            crate::text::lemma_trim_start_len(trim_end_spec(lines[k as int]));
        }
        let te = crate::text::trim_end_vec(&lines_exec[k]);
        let t = crate::text::trim_start_vec(&te);
        let u = upper_vec(&t);
        let mut handled = false;
        if !in_when && starts_with_lit(&u, "WHEN") {
            proof {
                reveal_strlit("WHEN");
                assert(u@.len() == t@.len());
                crate::text::lemma_trim_start_len(t@.skip(4));
            }
            let tail = subvec(&t, 4, t.len());
            proof {
                assert(t@.subrange(4, t@.len() as int) =~= t@.skip(4));
            }
            let after = crate::text::trim_start_vec(&tail);
            if after.len() > 0 && after[0] == '(' {
                let (add, closed, d_end) = scan_first_exec(&after);
                crate::text::push_all(&mut when_acc, &add);
                in_when = !closed;
                depth = d_end;
                handled = true;
                proof {
                    assert(after@.len() <= t@.len());
                    assert(t@.len() <= lines[k as int].len());
                }
            }
        }
        if !handled {
            if in_when {
                let (add, closed, d_end) = scan_cont_exec(&t, depth);
                crate::text::push_all(&mut when_acc, &add);
                if !closed {
                    when_acc.push(' ');
                }
                in_when = !closed;
                depth = d_end;
            } else {
                let ghost old_bl = body_lines.deep_view();
                let mut line_copy: Vec<char> = Vec::new();
                crate::text::push_all(&mut line_copy, &lines_exec[k]);
                body_lines.push(string_of(&line_copy));
                proof {
                    assert(body_lines.deep_view() =~~= old_bl.push(lines[k as int]));
                    assert(old_bl + seq![lines[k as int]] + spec_extract(
                        lines,
                        k + 1,
                        in_when,
                        depth as int,
                    ).1 =~= old_bl.push(lines[k as int]) + spec_extract(
                        lines,
                        k + 1,
                        in_when,
                        depth as int,
                    ).1);
                }
            }
        }
        proof {
            assert(t@.len() <= lines[k as int].len());
            assert(sum_lens(lines.take(k as int)) + lines[k as int].len() == sum_lens(
                lines.take(k + 1),
            ));
        }
        k = k + 1;
    }
    proof {
        assert(spec_extract(lines, n as int, in_when, depth as int).0 =~= Seq::<char>::empty());
        assert(spec_extract(lines, n as int, in_when, depth as int).1
            =~= Seq::<Seq<char>>::empty());
        assert(when_acc@ + Seq::<char>::empty() =~= when_acc@);
        assert(body_lines.deep_view() + Seq::<Seq<char>>::empty() =~= body_lines.deep_view());
    }
    let wt = crate::text::trim_end_vec(&when_acc);
    let w = crate::text::trim_start_vec(&wt);
    let when_s = string_of(&w);
    let body_s = join_strings(&body_lines, "\n");
    proof {
        assert(when_s@ == trim_start_spec(trim_end_spec(spec_extract(lines, 0, false, 0).0)));
    }
    (when_s, body_s)
}

} // verus!

verus! {

/// The terminator actually applied to trigger statements: the separate-file
/// mode writes triggers in script form.
pub open spec fn spec_effective_terminator(t: TriggerTerminator) -> TriggerTerminator {
    if t is DataGripScript {
        TriggerTerminator::Script
    } else {
        t
    }
}

/// One rendered trigger: a stored full CREATE TRIGGER body is only
/// re-normalized; otherwise the header is reconstructed, an embedded WHEN
/// clause re-emitted after FOR EACH ROW, references rewritten and the body
/// wrapped and semicolon-normalized.
pub open spec fn spec_trigger_stmt(
    schema: Seq<char>,
    tr: crate::model::TriggerDefinitionView,
    eff: TriggerTerminator,
) -> Seq<char> {
    let bt = trim_start_spec(trim_end_spec(tr.body));
    let bu = upper_seq(bt);
    if has_prefix(bu, "CREATE TRIGGER"@) || has_prefix(bu, "CREATE OR REPLACE TRIGGER"@) {
        spec_apply_terminator(spec_normalize_trigger_body(bt), eff)
    } else {
        let wc = if tr.each_row {
            spec_extract_when(bt)
        } else {
            (Seq::<char>::empty(), bt)
        };
        let when_clause = spec_rewrite_refs(wc.0, 0);
        let head = "CREATE OR REPLACE TRIGGER "@ + spec_quote_identifier(schema) + "."@
            + spec_quote_identifier(tr.name) + "\n"@ + tr.timing + " "@ + seq_join(
            tr.events,
            " OR "@,
        ) + " ON "@ + spec_quote_identifier(schema + "."@ + tr.table_name) + (if tr.each_row {
            " REFERENCING OLD AS OLD NEW AS NEW\nFOR EACH ROW"@
        } else {
            Seq::empty()
        }) + (if when_clause.len() > 0 {
            "\nWHEN ("@ + when_clause + ")"@
        } else {
            Seq::empty()
        }) + "\n"@;
        let nb = spec_normalize_trigger_body(spec_rewrite_refs(wc.1, 0));
        let nbt = trim_start_spec(trim_end_spec(nb));
        let nbu = upper_seq(trim_start_spec(nb));
        let with_body = if !has_prefix(nbu, "BEGIN"@) && !has_prefix(nbu, "DECLARE"@) {
            head + "BEGIN\n"@ + nbt + "\nEND"@
        } else {
            head + nbt
        };
        let te = trim_end_spec(with_body);
        let with_semi = if !(te.len() > 0 && te.last() == ';') {
            with_body.push(';')
        } else {
            with_body
        };
        spec_apply_terminator(with_semi, eff)
    }
}

/// Renders one trigger statement.
#[verifier::rlimit(100)]
fn trigger_stmt(
    schema: &str,
    tr: &crate::model::TriggerDefinition,
    eff: TriggerTerminator,
) -> (r: String)
    ensures
        r@ == spec_trigger_stmt(schema@, tr@, eff),
{
    let bv = chars_of(tr.body.as_str());
    let bte = crate::text::trim_end_vec(&bv);
    let bt = crate::text::trim_start_vec(&bte);
    let bu = upper_vec(&bt);
    let bt_s = string_of(&bt);
    if starts_with_lit(&bu, "CREATE TRIGGER") || starts_with_lit(&bu, "CREATE OR REPLACE TRIGGER")
    {
        let mut stmt = normalize_trigger_body(bt_s.as_str());
        apply_trigger_terminator(&mut stmt, eff);
        return stmt;
    }
    let (when_raw, body_raw) = if tr.each_row {
        extract_when_clause(bt_s.as_str())
    } else {
        (String::new(), bt_s)
    };
    let when_clause = normalize_trigger_references(when_raw.as_str());
    let events = join_strings(&tr.events, " OR ");
    let mut stmt = String::from_str("CREATE OR REPLACE TRIGGER ");
    let sid = quote_identifier(schema);
    stmt.append(sid.as_str());
    stmt.append(".");
    let nid = quote_identifier(tr.name.as_str());
    stmt.append(nid.as_str());
    stmt.append("\n");
    stmt.append(tr.timing.as_str());
    stmt.append(" ");
    stmt.append(events.as_str());
    stmt.append(" ON ");
    let mut qualified = String::new();
    qualified.append(schema);
    qualified.append(".");
    qualified.append(tr.table_name.as_str());
    proof {
        assert(qualified@ =~= schema@ + "."@ + tr@.table_name);
    }
    let tid = quote_identifier(qualified.as_str());
    stmt.append(tid.as_str());
    if tr.each_row {
        stmt.append(" REFERENCING OLD AS OLD NEW AS NEW\nFOR EACH ROW");
    }
    let wv = chars_of(when_clause.as_str());
    if wv.len() > 0 {
        stmt.append("\nWHEN (");
        stmt.append(when_clause.as_str());
        stmt.append(")");
    }
    stmt.append("\n");
    let ghost wc = if tr@.each_row {
        spec_extract_when(trim_start_spec(trim_end_spec(tr@.body)))
    } else {
        (Seq::<char>::empty(), trim_start_spec(trim_end_spec(tr@.body)))
    };
    let ghost when_g = spec_rewrite_refs(wc.0, 0);
    let ghost head_g = "CREATE OR REPLACE TRIGGER "@ + spec_quote_identifier(schema@) + "."@
        + spec_quote_identifier(tr@.name) + "\n"@ + tr@.timing + " "@ + seq_join(
        tr@.events,
        " OR "@,
    ) + " ON "@ + spec_quote_identifier(schema@ + "."@ + tr@.table_name) + (if tr@.each_row {
        " REFERENCING OLD AS OLD NEW AS NEW\nFOR EACH ROW"@
    } else {
        Seq::empty()
    }) + (if when_g.len() > 0 {
        "\nWHEN ("@ + when_g + ")"@
    } else {
        Seq::empty()
    }) + "\n"@;
    proof {
        assert(stmt@ =~= head_g);
    }
    let body_refs = normalize_trigger_references(body_raw.as_str());
    let nb = normalize_trigger_body(body_refs.as_str());
    let nbv = chars_of(nb.as_str());
    let nbts = crate::text::trim_start_vec(&nbv);
    let nbu = upper_vec(&nbts);
    let nbte = crate::text::trim_end_vec(&nbv);
    let nbt = crate::text::trim_start_vec(&nbte);
    let nbt_s = string_of(&nbt);
    if !starts_with_lit(&nbu, "BEGIN") && !starts_with_lit(&nbu, "DECLARE") {
        stmt.append("BEGIN\n");
        stmt.append(nbt_s.as_str());
        stmt.append("\nEND");
    } else {
        stmt.append(nbt_s.as_str());
    }
    let ghost nb_g = spec_normalize_trigger_body(spec_rewrite_refs(wc.1, 0));
    let ghost with_body_g = if !has_prefix(upper_seq(trim_start_spec(nb_g)), "BEGIN"@)
        && !has_prefix(upper_seq(trim_start_spec(nb_g)), "DECLARE"@) {
        head_g + "BEGIN\n"@ + trim_start_spec(trim_end_spec(nb_g)) + "\nEND"@
    } else {
        head_g + trim_start_spec(trim_end_spec(nb_g))
    };
    proof {
        assert(stmt@ =~= with_body_g);
    }
    let sv = chars_of(stmt.as_str());
    let ste = crate::text::trim_end_vec(&sv);
    if !(ste.len() > 0 && ste[ste.len() - 1] == ';') {
        proof {
            if ste@.len() > 0 {
                assert(ste@.last() == ste@[ste@.len() - 1]);
            }
        }
        crate::text::push_char(&mut stmt, ';');
    } else {
        proof {
            assert(ste@.last() == ste@[ste@.len() - 1]);
        }
    }
    apply_trigger_terminator(&mut stmt, eff);
    stmt
}

/// Emits one statement per trigger, in the selected terminator mode.
pub fn generate_triggers(
    schema: &str,
    triggers: &Vec<crate::model::TriggerDefinition>,
    terminator: TriggerTerminator,
) -> (r: Vec<String>)
    ensures
        r.deep_view() == Seq::new(
            triggers@.len() as nat,
            |i: int|
                spec_trigger_stmt(
                    schema@,
                    triggers.deep_view()[i],
                    spec_effective_terminator(terminator),
                ),
        ),
{
    let effective = if matches!(terminator, TriggerTerminator::DataGripScript) {
        TriggerTerminator::Script
    } else {
        terminator
    };
    proof {
        assert(effective == spec_effective_terminator(terminator));
    }
    let ghost tv = triggers.deep_view();
    let mut r: Vec<String> = Vec::new();
    let mut i: usize = 0;
    while i < triggers.len()
        invariant
            tv == triggers.deep_view(),
            tv.len() == triggers@.len(),
            effective == spec_effective_terminator(terminator),
            i <= triggers@.len(),
            r@.len() == i,
            forall|j: int|
                0 <= j < i ==> #[trigger] r@[j]@ == spec_trigger_stmt(
                    schema@,
                    tv[j],
                    spec_effective_terminator(terminator),
                ),
        decreases triggers@.len() - i,
    {
        proof {
            assert(tv[i as int] == triggers@[i as int]@);
        }
        let stmt = trigger_stmt(schema, &triggers[i], effective);
        r.push(stmt);
        i = i + 1;
    }
    proof {
        assert(r.deep_view() =~~= Seq::new(
            tv.len(),
            |j: int| spec_trigger_stmt(schema@, tv[j], spec_effective_terminator(terminator)),
        )) by {
            assert(forall|j: int| 0 <= j < r@.len() ==> #[trigger] r.deep_view()[j] == r@[j]@);
        }
    }
    r
}

} // verus!

verus! {

fn clone_opt_string(o: &Option<String>) -> (r: Option<String>)
    ensures
        crate::model::view_opt_string(r) == crate::model::view_opt_string(*o),
{
    match o {
        Some(s) => Some(s.clone()),
        None => None,
    }
}

fn clone_string_vec(v: &Vec<String>) -> (r: Vec<String>)
    ensures
        r.deep_view() == v.deep_view(),
{
    let mut r: Vec<String> = Vec::new();
    let mut i: usize = 0;
    while i < v.len()
        invariant
            i <= v@.len(),
            r@.len() == i,
            forall|j: int| 0 <= j < i ==> #[trigger] r@[j]@ == v@[j]@,
        decreases v@.len() - i,
    {
        r.push(v[i].clone());
        i = i + 1;
    }
    proof {
        assert(r.deep_view() =~~= v.deep_view()) by {
            assert(forall|j: int| 0 <= j < r@.len() ==> #[trigger] r.deep_view()[j] == r@[j]@);
            assert(forall|j: int| 0 <= j < v@.len() ==> #[trigger] v.deep_view()[j] == v@[j]@);
        }
    }
    r
}

fn clone_column(c: &Column) -> (r: Column)
    ensures
        r@ == c@,
{
    Column {
        name: c.name.clone(),
        data_type: c.data_type.clone(),
        length: c.length,
        precision: c.precision,
        scale: c.scale,
        char_semantics: clone_opt_string(&c.char_semantics),
        nullable: c.nullable,
        comment: clone_opt_string(&c.comment),
        default_value: clone_opt_string(&c.default_value),
        identity: c.identity,
        identity_start: c.identity_start,
        identity_increment: c.identity_increment,
    }
}

fn clone_columns(v: &Vec<Column>) -> (r: Vec<Column>)
    ensures
        r.deep_view() == v.deep_view(),
{
    let mut r: Vec<Column> = Vec::new();
    let mut i: usize = 0;
    while i < v.len()
        invariant
            i <= v@.len(),
            r@.len() == i,
            forall|j: int| 0 <= j < i ==> #[trigger] r@[j]@ == v@[j]@,
        decreases v@.len() - i,
    {
        r.push(clone_column(&v[i]));
        i = i + 1;
    }
    proof {
        assert(r.deep_view() =~~= v.deep_view()) by {
            assert(forall|j: int| 0 <= j < r@.len() ==> #[trigger] r.deep_view()[j] == r@[j]@);
            assert(forall|j: int| 0 <= j < v@.len() ==> #[trigger] v.deep_view()[j] == v@[j]@);
        }
    }
    r
}

fn clone_indexes(v: &Vec<crate::model::Index>) -> (r: Vec<crate::model::Index>)
    ensures
        r.deep_view() == v.deep_view(),
{
    let mut r: Vec<crate::model::Index> = Vec::new();
    let mut i: usize = 0;
    while i < v.len()
        invariant
            i <= v@.len(),
            r@.len() == i,
            forall|j: int| 0 <= j < i ==> #[trigger] r@[j]@ == v@[j]@,
        decreases v@.len() - i,
    {
        let x = &v[i];
        r.push(
            crate::model::Index {
                name: x.name.clone(),
                columns: clone_string_vec(&x.columns),
                unique: x.unique,
            },
        );
        i = i + 1;
    }
    proof {
        assert(r.deep_view() =~~= v.deep_view()) by {
            assert(forall|j: int| 0 <= j < r@.len() ==> #[trigger] r.deep_view()[j] == r@[j]@);
            assert(forall|j: int| 0 <= j < v@.len() ==> #[trigger] v.deep_view()[j] == v@[j]@);
        }
    }
    r
}

fn clone_uniques(v: &Vec<crate::model::UniqueConstraint>) -> (r: Vec<
    crate::model::UniqueConstraint,
>)
    ensures
        r.deep_view() == v.deep_view(),
{
    let mut r: Vec<crate::model::UniqueConstraint> = Vec::new();
    let mut i: usize = 0;
    while i < v.len()
        invariant
            i <= v@.len(),
            r@.len() == i,
            forall|j: int| 0 <= j < i ==> #[trigger] r@[j]@ == v@[j]@,
        decreases v@.len() - i,
    {
        let x = &v[i];
        r.push(
            crate::model::UniqueConstraint {
                name: x.name.clone(),
                columns: clone_string_vec(&x.columns),
            },
        );
        i = i + 1;
    }
    proof {
        assert(r.deep_view() =~~= v.deep_view()) by {
            assert(forall|j: int| 0 <= j < r@.len() ==> #[trigger] r.deep_view()[j] == r@[j]@);
            assert(forall|j: int| 0 <= j < v@.len() ==> #[trigger] v.deep_view()[j] == v@[j]@);
        }
    }
    r
}

fn clone_checks(v: &Vec<crate::model::CheckConstraint>) -> (r: Vec<crate::model::CheckConstraint>)
    ensures
        r.deep_view() == v.deep_view(),
{
    let mut r: Vec<crate::model::CheckConstraint> = Vec::new();
    let mut i: usize = 0;
    while i < v.len()
        invariant
            i <= v@.len(),
            r@.len() == i,
            forall|j: int| 0 <= j < i ==> #[trigger] r@[j]@ == v@[j]@,
        decreases v@.len() - i,
    {
        let x = &v[i];
        r.push(
            crate::model::CheckConstraint { name: x.name.clone(), condition: x.condition.clone() },
        );
        i = i + 1;
    }
    proof {
        assert(r.deep_view() =~~= v.deep_view()) by {
            assert(forall|j: int| 0 <= j < r@.len() ==> #[trigger] r.deep_view()[j] == r@[j]@);
            assert(forall|j: int| 0 <= j < v@.len() ==> #[trigger] v.deep_view()[j] == v@[j]@);
        }
    }
    r
}

fn clone_fks(v: &Vec<crate::model::ForeignKey>) -> (r: Vec<crate::model::ForeignKey>)
    ensures
        r.deep_view() == v.deep_view(),
{
    let mut r: Vec<crate::model::ForeignKey> = Vec::new();
    let mut i: usize = 0;
    while i < v.len()
        invariant
            i <= v@.len(),
            r@.len() == i,
            forall|j: int| 0 <= j < i ==> #[trigger] r@[j]@ == v@[j]@,
        decreases v@.len() - i,
    {
        let x = &v[i];
        r.push(
            crate::model::ForeignKey {
                name: x.name.clone(),
                columns: clone_string_vec(&x.columns),
                referenced_table: x.referenced_table.clone(),
                referenced_columns: clone_string_vec(&x.referenced_columns),
                delete_rule: clone_opt_string(&x.delete_rule),
                update_rule: clone_opt_string(&x.update_rule),
            },
        );
        i = i + 1;
    }
    proof {
        assert(r.deep_view() =~~= v.deep_view()) by {
            assert(forall|j: int| 0 <= j < r@.len() ==> #[trigger] r.deep_view()[j] == r@[j]@);
            assert(forall|j: int| 0 <= j < v@.len() ==> #[trigger] v.deep_view()[j] == v@[j]@);
        }
    }
    r
}

fn clone_triggers(v: &Vec<crate::model::TriggerDefinition>) -> (r: Vec<
    crate::model::TriggerDefinition,
>)
    ensures
        r.deep_view() == v.deep_view(),
{
    let mut r: Vec<crate::model::TriggerDefinition> = Vec::new();
    let mut i: usize = 0;
    while i < v.len()
        invariant
            i <= v@.len(),
            r@.len() == i,
            forall|j: int| 0 <= j < i ==> #[trigger] r@[j]@ == v@[j]@,
        decreases v@.len() - i,
    {
        let x = &v[i];
        r.push(
            crate::model::TriggerDefinition {
                name: x.name.clone(),
                table_name: x.table_name.clone(),
                timing: x.timing.clone(),
                events: clone_string_vec(&x.events),
                each_row: x.each_row,
                body: x.body.clone(),
            },
        );
        i = i + 1;
    }
    proof {
        assert(r.deep_view() =~~= v.deep_view()) by {
            assert(forall|j: int| 0 <= j < r@.len() ==> #[trigger] r.deep_view()[j] == r@[j]@);
            assert(forall|j: int| 0 <= j < v@.len() ==> #[trigger] v.deep_view()[j] == v@[j]@);
        }
    }
    r
}

/// The table view renamed to `TARGET.name`, all else unchanged.
pub open spec fn spec_qualified_table(
    t: crate::model::TableDetailsView,
    target_upper: Seq<char>,
) -> crate::model::TableDetailsView {
    crate::model::TableDetailsView {
        name: target_upper + "."@ + t.name,
        comment: t.comment,
        columns: t.columns,
        primary_keys: t.primary_keys,
        indexes: t.indexes,
        unique_constraints: t.unique_constraints,
        foreign_keys: t.foreign_keys,
        check_constraints: t.check_constraints,
        triggers: t.triggers,
    }
}

/// Rebuilds a table with its name qualified by the (already upper-cased)
/// target schema.
fn qualify_table(t: &crate::model::TableDetails, target_upper: &str) -> (r:
    crate::model::TableDetails)
    ensures
        r@ == spec_qualified_table(t@, target_upper@),
{
    let mut name = String::new();
    name.append(target_upper);
    name.append(".");
    name.append(t.name.as_str());
    proof {
        assert(name@ =~= target_upper@ + "."@ + t@.name);
    }
    crate::model::TableDetails {
        name,
        comment: clone_opt_string(&t.comment),
        columns: clone_columns(&t.columns),
        primary_keys: clone_string_vec(&t.primary_keys),
        indexes: clone_indexes(&t.indexes),
        unique_constraints: clone_uniques(&t.unique_constraints),
        foreign_keys: clone_fks(&t.foreign_keys),
        check_constraints: clone_checks(&t.check_constraints),
        triggers: clone_triggers(&t.triggers),
    }
}

} // verus!

verus! {

/// Each statement followed by a newline.
pub open spec fn spec_lines(stmts: Seq<Seq<char>>) -> Seq<char>
    decreases stmts.len(),
{
    if stmts.len() == 0 {
        Seq::empty()
    } else {
        spec_lines(stmts.drop_last()) + stmts.last() + "\n"@
    }
}

/// Appends every statement with a trailing newline.
fn append_statement_lines(text: &mut String, stmts: &Vec<String>)
    ensures
        final(text)@ == old(text)@ + spec_lines(stmts.deep_view()),
{
    let ghost base = text@;
    let ghost dv = stmts.deep_view();
    let mut i: usize = 0;
    proof {
        assert(base + spec_lines(dv.take(0)) =~= base);
    }
    while i < stmts.len()
        invariant
            dv == stmts.deep_view(),
            dv.len() == stmts@.len(),
            i <= stmts@.len(),
            text@ == base + spec_lines(dv.take(i as int)),
        decreases stmts@.len() - i,
    {
        proof {
            assert(dv.take(i + 1).drop_last() =~= dv.take(i as int));
            assert(dv.take(i + 1).last() == dv[i as int]);
            assert(dv[i as int] == stmts@[i as int]@);
        }
        text.append(stmts[i].as_str());
        text.append("\n");
        i = i + 1;
    }
    proof {
        assert(dv.take(dv.len() as int) =~= dv);
    }
}

/// One table's DDL block: a comment, an optional DROP, the CREATE TABLE,
/// then primary-key, unique, check and index statements, each group
/// preceded by a blank line.
pub open spec fn spec_table_block(qt: crate::model::TableDetailsView, drop_existing: bool) -> Seq<
    char,
> {
    let qid = spec_quote_identifier(qt.name);
    "-- \u{8868}: "@ + qid + "\n"@ + (if drop_existing {
        "DROP TABLE IF EXISTS "@ + qid + ";\n"@
    } else {
        Seq::empty()
    }) + spec_create_table(qt) + "\n"@ + (if qt.primary_keys.len() > 0 {
        "\n"@ + spec_primary_key(qt) + "\n"@
    } else {
        Seq::empty()
    }) + (if qt.unique_constraints.len() > 0 {
        "\n"@ + spec_lines(
            Seq::new(qt.unique_constraints.len(), |i: int| spec_unique_stmt(qt.name, qt.unique_constraints[i])),
        )
    } else {
        Seq::empty()
    }) + (if qt.check_constraints.len() > 0 {
        "\n"@ + spec_lines(
            Seq::new(qt.check_constraints.len(), |i: int| spec_check_stmt(qt.name, qt.check_constraints[i])),
        )
    } else {
        Seq::empty()
    }) + (if spec_index_statements(qt, qt.indexes.len() as int).len() > 0 {
        "\n"@ + spec_lines(spec_index_statements(qt, qt.indexes.len() as int))
    } else {
        Seq::empty()
    })
}

/// Renders one table's DDL block.
#[verifier::rlimit(100)]
fn table_block(qt: &crate::model::TableDetails, drop_existing: bool) -> (r: String)
    ensures
        r@ == spec_table_block(qt@, drop_existing),
{
    let qid = quote_identifier(qt.name.as_str());
    let mut text = String::from_str("-- \u{8868}: ");
    text.append(qid.as_str());
    text.append("\n");
    let mut drop_piece = String::new();
    if drop_existing {
        drop_piece.append("DROP TABLE IF EXISTS ");
        drop_piece.append(qid.as_str());
        drop_piece.append(";\n");
    }
    proof {
        assert(drop_piece@ =~= (if drop_existing {
            "DROP TABLE IF EXISTS "@ + spec_quote_identifier(qt@.name) + ";\n"@
        } else {
            Seq::<char>::empty()
        }));
    }
    text.append(drop_piece.as_str());
    let ct = generate_create_table(qt);
    text.append(ct.as_str());
    text.append("\n");
    let mut pk_piece = String::new();
    match generate_primary_key(qt) {
        Some(pk) => {
            pk_piece.append("\n");
            pk_piece.append(pk.as_str());
            pk_piece.append("\n");
        },
        None => {},
    }
    proof {
        assert(pk_piece@ =~= (if qt@.primary_keys.len() > 0 {
            "\n"@ + spec_primary_key(qt@) + "\n"@
        } else {
            Seq::<char>::empty()
        }));
    }
    text.append(pk_piece.as_str());
    let uniques = generate_unique_constraints(qt);
    let mut uq_piece = String::new();
    if uniques.len() > 0 {
        uq_piece.append("\n");
        append_statement_lines(&mut uq_piece, &uniques);
    }
    proof {
        assert(uq_piece@ =~= (if qt@.unique_constraints.len() > 0 {
            "\n"@ + spec_lines(
                Seq::new(
                    qt@.unique_constraints.len(),
                    |i: int| spec_unique_stmt(qt@.name, qt@.unique_constraints[i]),
                ),
            )
        } else {
            Seq::<char>::empty()
        }));
    }
    text.append(uq_piece.as_str());
    let checks = generate_check_constraints(qt);
    let mut ck_piece = String::new();
    if checks.len() > 0 {
        ck_piece.append("\n");
        append_statement_lines(&mut ck_piece, &checks);
    }
    proof {
        assert(ck_piece@ =~= (if qt@.check_constraints.len() > 0 {
            "\n"@ + spec_lines(
                Seq::new(
                    qt@.check_constraints.len(),
                    |i: int| spec_check_stmt(qt@.name, qt@.check_constraints[i]),
                ),
            )
        } else {
            Seq::<char>::empty()
        }));
    }
    text.append(ck_piece.as_str());
    let idx_stmts = generate_indexes(qt);
    let mut ix_piece = String::new();
    if idx_stmts.len() > 0 {
        ix_piece.append("\n");
        append_statement_lines(&mut ix_piece, &idx_stmts);
    }
    proof {
        assert(ix_piece@ =~= (if spec_index_statements(qt@, qt@.indexes.len() as int).len() > 0 {
            "\n"@ + spec_lines(spec_index_statements(qt@, qt@.indexes.len() as int))
        } else {
            Seq::<char>::empty()
        }));
    }
    text.append(ix_piece.as_str());
    proof {
        assert(text@ =~= spec_table_block(qt@, drop_existing));
    }
    text
}

} // verus!

verus! {

pub open spec fn spec_table_names(tables: Seq<crate::model::TableDetailsView>) -> Seq<Seq<char>> {
    Seq::new(tables.len(), |i: int| tables[i].name)
}

/// The DDL script's header comments.
pub open spec fn spec_ddl_header(
    source_upper: Seq<char>,
    target_upper: Seq<char>,
    names: Seq<Seq<char>>,
    n: int,
    terminator: TriggerTerminator,
    drop_existing: bool,
    timestamp: Seq<char>,
) -> Seq<char> {
    "-- ============================================\n"@ + "-- DM8 DDL \u{5bfc}\u{51fa}\u{811a}\u{672c}\n"@
        + "-- ============================================\n"@ + "-- \u{751f}\u{6210}\u{65f6}\u{95f4}: "@
        + timestamp + "\n"@ + "-- \u{6e90} Schema: "@ + source_upper + "\n"@
        + "-- \u{76ee}\u{6807} Schema: "@ + target_upper + "\n"@ + "-- \u{8868}\u{6570}\u{91cf}: "@
        + dec_int(n) + "\n"@ + "-- \u{6d89}\u{53ca}\u{7684}\u{8868}: "@ + seq_join(names, ", "@)
        + "\n"@ + "--\n"@ + (if terminator is DataGripScript {
        "-- \u{6267}\u{884c}\u{65b9}\u{5f0f}: DataGrip \u{811a}\u{672c}\u{6a21}\u{5f0f}\n"@
            + "-- \u{6ce8}\u{610f}: \u{89e6}\u{53d1}\u{5668}\u{5df2}\u{5bfc}\u{51fa}\u{5230}\u{5355}\u{72ec}\u{7684}\u{6587}\u{4ef6}\u{ff0c}\u{8bf7}\u{4f7f}\u{7528} DIsql \u{6216}\u{5176}\u{4ed6}\u{8fbe}\u{68a6}\u{539f}\u{751f}\u{5de5}\u{5177}\u{6267}\u{884c}\n"@
    } else if terminator is Script {
        "-- \u{6267}\u{884c}\u{65b9}\u{5f0f}: \u{811a}\u{672c}\u{6a21}\u{5f0f} (DBeaver/SQLark/DIsql)\n"@
            + "-- \u{6ce8}\u{610f}: \u{89e6}\u{53d1}\u{5668}\u{4f7f}\u{7528} / \u{4f5c}\u{4e3a}\u{8bed}\u{53e5}\u{5206}\u{9694}\u{7b26}\n"@
    } else {
        "-- \u{6267}\u{884c}\u{65b9}\u{5f0f}: DataGrip \u{9010}\u{8bed}\u{53e5}\u{8fd0}\u{884c}\n"@
            + "-- \u{6ce8}\u{610f}: \u{8bf7}\u{5728} DataGrip \u{4e2d}\u{9010}\u{6761}\u{6267}\u{884c}\u{8bed}\u{53e5}\n"@
    }) + (if drop_existing {
        "-- \u{8b66}\u{544a}: \u{6b64}\u{811a}\u{672c}\u{4f1a}\u{5148}\u{5220}\u{9664}\u{5df2}\u{5b58}\u{5728}\u{7684}\u{8868}\u{518d}\u{91cd}\u{65b0}\u{521b}\u{5efa}\n"@
    } else {
        "-- \u{8bf4}\u{660e}: \u{6b64}\u{811a}\u{672c}\u{4e0d}\u{4f1a}\u{5220}\u{9664}\u{5df2}\u{5b58}\u{5728}\u{7684}\u{8868}\n"@
    }) + "-- \u{91cd}\u{8981}: \u{89e6}\u{53d1}\u{5668}\u{901a}\u{5e38}\u{4f9d}\u{8d56} SEQUENCE (\u{5e8f}\u{5217}) \u{751f}\u{6210}\u{4e3b}\u{952e}\n"@
        + "-- \u{91cd}\u{8981}: \u{5fc5}\u{987b}\u{5148}\u{6267}\u{884c} SEQUENCE \u{518d}\u{6267}\u{884c}\u{89e6}\u{53d1}\u{5668}\n"@
        + "-- ============================================\n"@ + "\n"@
}

/// Renders the DDL header.
#[verifier::rlimit(100)]
fn ddl_header(
    source_upper: &str,
    target_upper: &str,
    names: &Vec<String>,
    n: usize,
    terminator: TriggerTerminator,
    drop_existing: bool,
    timestamp: &str,
) -> (r: String)
    ensures
        r@ == spec_ddl_header(
            source_upper@,
            target_upper@,
            names.deep_view(),
            n as int,
            terminator,
            drop_existing,
            timestamp@,
        ),
{
    let mut t = String::from_str("-- ============================================\n");
    t.append("-- DM8 DDL \u{5bfc}\u{51fa}\u{811a}\u{672c}\n");
    t.append("-- ============================================\n");
    t.append("-- \u{751f}\u{6210}\u{65f6}\u{95f4}: ");
    t.append(timestamp);
    t.append("\n");
    t.append("-- \u{6e90} Schema: ");
    t.append(source_upper);
    t.append("\n");
    t.append("-- \u{76ee}\u{6807} Schema: ");
    t.append(target_upper);
    t.append("\n");
    t.append("-- \u{8868}\u{6570}\u{91cf}: ");
    let ns = crate::text::usize_to_string(n);
    t.append(ns.as_str());
    t.append("\n");
    t.append("-- \u{6d89}\u{53ca}\u{7684}\u{8868}: ");
    let joined = join_strings(names, ", ");
    t.append(joined.as_str());
    t.append("\n");
    t.append("--\n");
    if matches!(terminator, TriggerTerminator::DataGripScript) {
        t.append("-- \u{6267}\u{884c}\u{65b9}\u{5f0f}: DataGrip \u{811a}\u{672c}\u{6a21}\u{5f0f}\n");
        t.append(
            "-- \u{6ce8}\u{610f}: \u{89e6}\u{53d1}\u{5668}\u{5df2}\u{5bfc}\u{51fa}\u{5230}\u{5355}\u{72ec}\u{7684}\u{6587}\u{4ef6}\u{ff0c}\u{8bf7}\u{4f7f}\u{7528} DIsql \u{6216}\u{5176}\u{4ed6}\u{8fbe}\u{68a6}\u{539f}\u{751f}\u{5de5}\u{5177}\u{6267}\u{884c}\n",
        );
    } else if matches!(terminator, TriggerTerminator::Script) {
        t.append("-- \u{6267}\u{884c}\u{65b9}\u{5f0f}: \u{811a}\u{672c}\u{6a21}\u{5f0f} (DBeaver/SQLark/DIsql)\n");
        t.append(
            "-- \u{6ce8}\u{610f}: \u{89e6}\u{53d1}\u{5668}\u{4f7f}\u{7528} / \u{4f5c}\u{4e3a}\u{8bed}\u{53e5}\u{5206}\u{9694}\u{7b26}\n",
        );
    } else {
        t.append("-- \u{6267}\u{884c}\u{65b9}\u{5f0f}: DataGrip \u{9010}\u{8bed}\u{53e5}\u{8fd0}\u{884c}\n");
        t.append(
            "-- \u{6ce8}\u{610f}: \u{8bf7}\u{5728} DataGrip \u{4e2d}\u{9010}\u{6761}\u{6267}\u{884c}\u{8bed}\u{53e5}\n",
        );
    }
    if drop_existing {
        t.append(
            "-- \u{8b66}\u{544a}: \u{6b64}\u{811a}\u{672c}\u{4f1a}\u{5148}\u{5220}\u{9664}\u{5df2}\u{5b58}\u{5728}\u{7684}\u{8868}\u{518d}\u{91cd}\u{65b0}\u{521b}\u{5efa}\n",
        );
    } else {
        t.append(
            "-- \u{8bf4}\u{660e}: \u{6b64}\u{811a}\u{672c}\u{4e0d}\u{4f1a}\u{5220}\u{9664}\u{5df2}\u{5b58}\u{5728}\u{7684}\u{8868}\n",
        );
    }
    t.append(
        "-- \u{91cd}\u{8981}: \u{89e6}\u{53d1}\u{5668}\u{901a}\u{5e38}\u{4f9d}\u{8d56} SEQUENCE (\u{5e8f}\u{5217}) \u{751f}\u{6210}\u{4e3b}\u{952e}\n",
    );
    t.append(
        "-- \u{91cd}\u{8981}: \u{5fc5}\u{987b}\u{5148}\u{6267}\u{884c} SEQUENCE \u{518d}\u{6267}\u{884c}\u{89e6}\u{53d1}\u{5668}\n",
    );
    t.append("-- ============================================\n");
    t.append("\n");
    t
}

} // verus!

verus! {

/// All foreign-key statements across the qualified tables, in table order.
pub open spec fn spec_fk_all(
    tables: Seq<crate::model::TableDetailsView>,
    target_upper: Seq<char>,
) -> Seq<Seq<char>>
    decreases tables.len(),
{
    if tables.len() == 0 {
        Seq::empty()
    } else {
        let qt = spec_qualified_table(tables.last(), target_upper);
        spec_fk_all(tables.drop_last(), target_upper) + Seq::new(
            qt.foreign_keys.len(),
            |i: int| spec_fk_stmt(qt.name, qt.foreign_keys[i]),
        )
    }
}

/// All trigger statements across the qualified tables, in table order.
pub open spec fn spec_trig_all(
    tables: Seq<crate::model::TableDetailsView>,
    target_upper: Seq<char>,
    terminator: TriggerTerminator,
) -> Seq<Seq<char>>
    decreases tables.len(),
{
    if tables.len() == 0 {
        Seq::empty()
    } else {
        spec_trig_all(tables.drop_last(), target_upper, terminator) + Seq::new(
            tables.last().triggers.len(),
            |i: int|
                spec_trigger_stmt(
                    target_upper,
                    tables.last().triggers[i],
                    spec_effective_terminator(terminator),
                ),
        )
    }
}

/// The names of the tables that have triggers.
pub open spec fn spec_trigger_tables(tables: Seq<crate::model::TableDetailsView>) -> Seq<Seq<char>>
    decreases tables.len(),
{
    if tables.len() == 0 {
        Seq::empty()
    } else {
        spec_trigger_tables(tables.drop_last()) + (if tables.last().triggers.len() > 0 {
            seq![tables.last().name]
        } else {
            Seq::empty()
        })
    }
}

/// The per-table DDL blocks, separated by blank lines.
pub open spec fn spec_ddl_tables(
    tables: Seq<crate::model::TableDetailsView>,
    target_upper: Seq<char>,
    drop_existing: bool,
) -> Seq<char> {
    seq_join(
        Seq::new(
            tables.len(),
            |i: int| spec_table_block(spec_qualified_table(tables[i], target_upper), drop_existing),
        ),
        "\n"@,
    )
}

/// The separate trigger file, over the already-rendered statements and
/// the names of the tables that have triggers.
pub open spec fn spec_trigger_file_parts(
    trig: Seq<Seq<char>>,
    tnames: Seq<Seq<char>>,
    target_upper: Seq<char>,
    timestamp: Seq<char>,
) -> Seq<char> {
    "-- ============================================\n"@
        + "-- DM8 \u{89e6}\u{53d1}\u{5668} DDL \u{5bfc}\u{51fa}\u{811a}\u{672c}\n"@
        + "-- ============================================\n"@ + "-- \u{751f}\u{6210}\u{65f6}\u{95f4}: "@
        + timestamp + "\n"@ + "-- \u{76ee}\u{6807} Schema: "@ + target_upper + "\n"@
        + "-- \u{89e6}\u{53d1}\u{5668}\u{6570}\u{91cf}: "@ + dec_int(trig.len() as int) + "\n"@
        + "-- \u{6d89}\u{53ca}\u{7684}\u{8868}: "@ + seq_join(tnames, ", "@)
        + "\n"@ + "--\n"@ + "-- \u{6267}\u{884c}\u{65b9}\u{5f0f}:\n"@
        + "--   1. \u{4f7f}\u{7528} DIsql \u{547d}\u{4ee4}\u{884c}\u{5de5}\u{5177}: disql USER/PASSWORD@HOST:PORT -f \u{6b64}\u{6587}\u{4ef6}\u{8def}\u{5f84}\n"@
        + "--   2. \u{4f7f}\u{7528}\u{8fbe}\u{68a6}\u{7ba1}\u{7406}\u{5de5}\u{5177}\u{6253}\u{5f00}\u{6b64}\u{6587}\u{4ef6}\u{5e76}\u{6267}\u{884c}\n"@
        + "--   3. \u{5728} DataGrip \u{4e2d}\u{9010}\u{6761}\u{9009}\u{4e2d}\u{89e6}\u{53d1}\u{5668}\u{8bed}\u{53e5}\u{6267}\u{884c} (\u{4e0d}\u{8981}\u{4f7f}\u{7528} Run Script)\n"@
        + "--\n"@
        + "-- \u{91cd}\u{8981}: \u{5fc5}\u{987b}\u{5148}\u{6267}\u{884c}\u{4e3b}DDL\u{6587}\u{4ef6}\u{4e2d}\u{7684} SEQUENCE\u{ff0c}\u{518d}\u{6267}\u{884c}\u{672c}\u{6587}\u{4ef6}\n"@
        + "-- \u{6ce8}\u{610f}: \u{6bcf}\u{4e2a}\u{89e6}\u{53d1}\u{5668}\u{4ee5} / \u{7ed3}\u{5c3e}\u{4f5c}\u{4e3a}\u{8bed}\u{53e5}\u{5206}\u{9694}\u{7b26}\n"@
        + "-- ============================================\n"@ + "\n"@ + spec_trigger_lines(trig)
}

/// The separate trigger file, written in script mode.
pub open spec fn spec_trigger_file(
    tables: Seq<crate::model::TableDetailsView>,
    target_upper: Seq<char>,
    terminator: TriggerTerminator,
    timestamp: Seq<char>,
) -> Seq<char> {
    spec_trigger_file_parts(
        spec_trig_all(tables, target_upper, terminator),
        spec_trigger_tables(tables),
        target_upper,
        timestamp,
    )
}

/// Trigger statements each followed by a blank line.
pub open spec fn spec_trigger_lines(stmts: Seq<Seq<char>>) -> Seq<char>
    decreases stmts.len(),
{
    if stmts.len() == 0 {
        Seq::empty()
    } else {
        spec_trigger_lines(stmts.drop_last()) + stmts.last() + "\n"@ + "\n"@
    }
}

/// The closing sections of the main DDL file: foreign keys, sequences and
/// triggers (the latter inline or as a pointer to the separate file).
pub open spec fn spec_ddl_tail_parts(
    fks: Seq<Seq<char>>,
    seqs: Seq<Seq<char>>,
    trig: Seq<Seq<char>>,
    terminator: TriggerTerminator,
    trigger_file_name: Seq<char>,
) -> Seq<char> {
    (if fks.len() > 0 {
        "\n"@ + "-- \u{5916}\u{952e}\n"@ + spec_lines(fks)
    } else {
        Seq::empty()
    }) + (if seqs.len() > 0 || trig.len() > 0 {
        "\n"@ + "-- ============================================\n"@
            + "-- SEQUENCE \u{4e0e}\u{89e6}\u{53d1}\u{5668}\n"@
            + "-- ============================================\n"@
            + "-- \u{91cd}\u{8981}: \u{5fc5}\u{987b}\u{5148}\u{6267}\u{884c} SEQUENCE \u{518d}\u{6267}\u{884c}\u{89e6}\u{53d1}\u{5668}\n"@
            + "-- ============================================\n"@
    } else {
        Seq::empty()
    }) + (if seqs.len() > 0 {
        "\n"@ + "-- SEQUENCE (\u{7b2c}\u{4e00}\u{6b65}: \u{8bf7}\u{5148}\u{6267}\u{884c})\n"@
            + spec_lines(seqs)
    } else {
        Seq::empty()
    }) + (if terminator is DataGripScript && trig.len() > 0 {
        "\n"@ + "-- \u{89e6}\u{53d1}\u{5668} (\u{7b2c}\u{4e8c}\u{6b65}: \u{8bf7}\u{5728} SEQUENCE \u{4e4b}\u{540e}\u{6267}\u{884c})\n"@
            + "-- \u{6ce8}\u{610f}: \u{89e6}\u{53d1}\u{5668}\u{5df2}\u{5bfc}\u{51fa}\u{5230}\u{5355}\u{72ec}\u{7684}\u{6587}\u{4ef6}: "@
            + trigger_file_name + "\n"@
            + "-- \u{8bf7}\u{4f7f}\u{7528} DIsql \u{6216}\u{5176}\u{4ed6}\u{8fbe}\u{68a6}\u{539f}\u{751f}\u{5de5}\u{5177}\u{6267}\u{884c}\u{8be5}\u{6587}\u{4ef6}\n"@
    } else if trig.len() > 0 {
        "\n"@ + "-- \u{89e6}\u{53d1}\u{5668} (\u{7b2c}\u{4e8c}\u{6b65}: \u{8bf7}\u{5728} SEQUENCE \u{4e4b}\u{540e}\u{6267}\u{884c})\n"@
            + spec_lines(trig)
    } else {
        Seq::empty()
    })
}

/// The closing sections over the model directly.
pub open spec fn spec_ddl_tail(
    tables: Seq<crate::model::TableDetailsView>,
    target_upper: Seq<char>,
    sequences: Seq<crate::model::SequenceView>,
    terminator: TriggerTerminator,
    trigger_file_name: Seq<char>,
) -> Seq<char> {
    spec_ddl_tail_parts(
        spec_fk_all(tables, target_upper),
        Seq::new(sequences.len(), |i: int| spec_sequence_stmt(target_upper, sequences[i])),
        spec_trig_all(tables, target_upper, terminator),
        terminator,
        trigger_file_name,
    )
}

} // verus!

verus! {

/// Renders the whole DDL script for the requested tables: header, one
/// block per table, foreign keys after all tables, then sequences and
/// triggers; in the separate-file mode the triggers go to a second file
/// named by the given file name, and the main file points at it.
#[verifier::rlimit(100)]
pub fn export_schema_ddl(
    source_schema: &str,
    target_schema: &str,
    tables: &Vec<crate::model::TableDetails>,
    sequences: &Vec<crate::model::Sequence>,
    drop_existing: bool,
    trigger_terminator: TriggerTerminator,
    timestamp: &str,
    trigger_file_name: &str,
) -> (r: (String, Option<String>))
    ensures
        r.0@ == spec_ddl_header(
            upper_seq(source_schema@),
            upper_seq(target_schema@),
            spec_table_names(tables.deep_view()),
            tables@.len() as int,
            trigger_terminator,
            drop_existing,
            timestamp@,
        ) + spec_ddl_tables(tables.deep_view(), upper_seq(target_schema@), drop_existing)
            + spec_ddl_tail(
            tables.deep_view(),
            upper_seq(target_schema@),
            sequences.deep_view(),
            trigger_terminator,
            trigger_file_name@,
        ),
        r.1 is Some <==> (trigger_terminator is DataGripScript && spec_trig_all(
            tables.deep_view(),
            upper_seq(target_schema@),
            trigger_terminator,
        ).len() > 0),
        r.1 matches Some(tf) ==> tf@ == spec_trigger_file(
            tables.deep_view(),
            upper_seq(target_schema@),
            trigger_terminator,
            timestamp@,
        ),
{
    let ghost tv = tables.deep_view();
    let sv0 = chars_of(source_schema);
    let su = upper_vec(&sv0);
    let source_upper = string_of(&su);
    let tv0 = chars_of(target_schema);
    let tu = upper_vec(&tv0);
    let target_upper = string_of(&tu);
    let mut names: Vec<String> = Vec::new();
    let mut i: usize = 0;
    while i < tables.len()
        invariant
            tv == tables.deep_view(),
            tv.len() == tables@.len(),
            i <= tables@.len(),
            names@.len() == i,
            forall|j: int| 0 <= j < i ==> #[trigger] names@[j]@ == tv[j].name,
        decreases tables@.len() - i,
    {
        proof {
            assert(tv[i as int] == tables@[i as int]@);
        }
        names.push(tables[i].name.clone());
        i = i + 1;
    }
    proof {
        assert(names.deep_view() =~~= spec_table_names(tv)) by {
            assert(forall|j: int|
                0 <= j < names@.len() ==> #[trigger] names.deep_view()[j] == names@[j]@);
        }
    }
    let mut text = ddl_header(
        source_upper.as_str(),
        target_upper.as_str(),
        &names,
        tables.len(),
        trigger_terminator,
        drop_existing,
        timestamp,
    );
    let ghost header_g = text@;
    let mut blocks: Vec<String> = Vec::new();
    let mut t: usize = 0;
    while t < tables.len()
        invariant
            tv == tables.deep_view(),
            tv.len() == tables@.len(),
            target_upper@ == upper_seq(target_schema@),
            t <= tables@.len(),
            blocks@.len() == t,
            forall|j: int|
                0 <= j < t ==> #[trigger] blocks@[j]@ == spec_table_block(
                    spec_qualified_table(tv[j], target_upper@),
                    drop_existing,
                ),
        decreases tables@.len() - t,
    {
        proof {
            assert(tv[t as int] == tables@[t as int]@);
        }
        let qt = qualify_table(&tables[t], target_upper.as_str());
        let block = table_block(&qt, drop_existing);
        blocks.push(block);
        t = t + 1;
    }
    let joined_blocks = join_strings(&blocks, "\n");
    proof {
        assert(blocks.deep_view() =~~= Seq::new(
            tv.len(),
            |i: int| spec_table_block(spec_qualified_table(tv[i], target_upper@), drop_existing),
        )) by {
            assert(forall|j: int|
                0 <= j < blocks@.len() ==> #[trigger] blocks.deep_view()[j] == blocks@[j]@);
        }
    }
    text.append(joined_blocks.as_str());
    let mut fk_statements: Vec<String> = Vec::new();
    let mut f: usize = 0;
    while f < tables.len()
        invariant
            tv == tables.deep_view(),
            tv.len() == tables@.len(),
            target_upper@ == upper_seq(target_schema@),
            f <= tables@.len(),
            fk_statements.deep_view() == spec_fk_all(tv.take(f as int), target_upper@),
        decreases tables@.len() - f,
    {
        proof {
            assert(tv.take(f + 1).drop_last() =~= tv.take(f as int));
            assert(tv.take(f + 1).last() == tv[f as int]);
            assert(tv[f as int] == tables@[f as int]@);
        }
        let qt = qualify_table(&tables[f], target_upper.as_str());
        let mut stmts = generate_foreign_keys(&qt);
        let ghost old_fk = fk_statements.deep_view();
        let ghost new_stmts = stmts.deep_view();
        fk_statements.append(&mut stmts);
        proof {
            assert(fk_statements.deep_view() =~~= old_fk + new_stmts);
        }
        f = f + 1;
    }
    proof {
        assert(tv.take(tv.len() as int) =~= tv);
    }
    let seq_stmts = generate_sequences(target_upper.as_str(), sequences);
    let mut trig_stmts: Vec<String> = Vec::new();
    let mut g: usize = 0;
    while g < tables.len()
        invariant
            tv == tables.deep_view(),
            tv.len() == tables@.len(),
            target_upper@ == upper_seq(target_schema@),
            g <= tables@.len(),
            trig_stmts.deep_view() == spec_trig_all(
                tv.take(g as int),
                target_upper@,
                trigger_terminator,
            ),
        decreases tables@.len() - g,
    {
        proof {
            assert(tv.take(g + 1).drop_last() =~= tv.take(g as int));
            assert(tv.take(g + 1).last() == tv[g as int]);
            assert(tv[g as int] == tables@[g as int]@);
        }
        let mut stmts = generate_triggers(
            target_upper.as_str(),
            &tables[g].triggers,
            trigger_terminator,
        );
        let ghost old_tr = trig_stmts.deep_view();
        let ghost new_tr = stmts.deep_view();
        trig_stmts.append(&mut stmts);
        proof {
            assert(trig_stmts.deep_view() =~~= old_tr + new_tr);
        }
        g = g + 1;
    }
    proof {
        assert(tv.take(tv.len() as int) =~= tv);
    }
    let tail = ddl_tail(
        &fk_statements,
        &seq_stmts,
        &trig_stmts,
        trigger_terminator,
        trigger_file_name,
    );
    proof {
        assert(seq_stmts.deep_view() == Seq::new(
            sequences.deep_view().len(),
            |i: int| spec_sequence_stmt(target_upper@, sequences.deep_view()[i]),
        ));
    }
    text.append(tail.as_str());
    let separate = matches!(trigger_terminator, TriggerTerminator::DataGripScript)
        && trig_stmts.len() > 0;
    if !separate {
        return (text, None);
    }
    let mut trig_tables: Vec<String> = Vec::new();
    let mut h: usize = 0;
    while h < tables.len()
        invariant
            tv == tables.deep_view(),
            tv.len() == tables@.len(),
            h <= tables@.len(),
            trig_tables.deep_view() == spec_trigger_tables(tv.take(h as int)),
        decreases tables@.len() - h,
    {
        proof {
            assert(tv.take(h + 1).drop_last() =~= tv.take(h as int));
            assert(tv.take(h + 1).last() == tv[h as int]);
            assert(tv[h as int] == tables@[h as int]@);
        }
        let ghost old_tt = trig_tables.deep_view();
        if tables[h].triggers.len() > 0 {
            trig_tables.push(tables[h].name.clone());
            proof {
                assert(trig_tables.deep_view() =~~= old_tt + seq![tv[h as int].name]);
            }
        } else {
            proof {
                assert(old_tt + Seq::<Seq<char>>::empty() =~= old_tt);
            }
        }
        h = h + 1;
    }
    proof {
        assert(tv.take(tv.len() as int) =~= tv);
    }
    let tf = trigger_file_render(&trig_stmts, &trig_tables, target_upper.as_str(), timestamp);
    (text, Some(tf))
}

/// Renders the closing sections of the main DDL file.
#[verifier::rlimit(100)]
fn ddl_tail(
    fk_statements: &Vec<String>,
    seq_stmts: &Vec<String>,
    trig_stmts: &Vec<String>,
    terminator: TriggerTerminator,
    trigger_file_name: &str,
) -> (r: String)
    ensures
        r@ == spec_ddl_tail_parts(
            fk_statements.deep_view(),
            seq_stmts.deep_view(),
            trig_stmts.deep_view(),
            terminator,
            trigger_file_name@,
        ),
{
    let mut text = String::new();
    let mut fk_piece = String::new();
    if fk_statements.len() > 0 {
        fk_piece.append("\n");
        fk_piece.append("-- \u{5916}\u{952e}\n");
        append_statement_lines(&mut fk_piece, fk_statements);
    }
    proof {
        assert(fk_piece@ =~= (if fk_statements.deep_view().len() > 0 {
            "\n"@ + "-- \u{5916}\u{952e}\n"@ + spec_lines(fk_statements.deep_view())
        } else {
            Seq::<char>::empty()
        }));
    }
    text.append(fk_piece.as_str());
    let mut section_piece = String::new();
    if seq_stmts.len() > 0 || trig_stmts.len() > 0 {
        section_piece.append("\n");
        section_piece.append("-- ============================================\n");
        section_piece.append("-- SEQUENCE \u{4e0e}\u{89e6}\u{53d1}\u{5668}\n");
        section_piece.append("-- ============================================\n");
        section_piece.append(
            "-- \u{91cd}\u{8981}: \u{5fc5}\u{987b}\u{5148}\u{6267}\u{884c} SEQUENCE \u{518d}\u{6267}\u{884c}\u{89e6}\u{53d1}\u{5668}\n",
        );
        section_piece.append("-- ============================================\n");
    }
    proof {
        assert(section_piece@ =~= (if seq_stmts.deep_view().len() > 0 || trig_stmts.deep_view().len()
            > 0 {
            "\n"@ + "-- ============================================\n"@
                + "-- SEQUENCE \u{4e0e}\u{89e6}\u{53d1}\u{5668}\n"@
                + "-- ============================================\n"@
                + "-- \u{91cd}\u{8981}: \u{5fc5}\u{987b}\u{5148}\u{6267}\u{884c} SEQUENCE \u{518d}\u{6267}\u{884c}\u{89e6}\u{53d1}\u{5668}\n"@
                + "-- ============================================\n"@
        } else {
            Seq::<char>::empty()
        }));
    }
    text.append(section_piece.as_str());
    let mut seq_piece = String::new();
    if seq_stmts.len() > 0 {
        seq_piece.append("\n");
        seq_piece.append("-- SEQUENCE (\u{7b2c}\u{4e00}\u{6b65}: \u{8bf7}\u{5148}\u{6267}\u{884c})\n");
        append_statement_lines(&mut seq_piece, seq_stmts);
    }
    proof {
        assert(seq_piece@ =~= (if seq_stmts.deep_view().len() > 0 {
            "\n"@ + "-- SEQUENCE (\u{7b2c}\u{4e00}\u{6b65}: \u{8bf7}\u{5148}\u{6267}\u{884c})\n"@
                + spec_lines(seq_stmts.deep_view())
        } else {
            Seq::<char>::empty()
        }));
    }
    text.append(seq_piece.as_str());
    let separate = matches!(terminator, TriggerTerminator::DataGripScript) && trig_stmts.len() > 0;
    let mut trig_piece = String::new();
    if separate {
        trig_piece.append("\n");
        trig_piece.append(
            "-- \u{89e6}\u{53d1}\u{5668} (\u{7b2c}\u{4e8c}\u{6b65}: \u{8bf7}\u{5728} SEQUENCE \u{4e4b}\u{540e}\u{6267}\u{884c})\n",
        );
        trig_piece.append(
            "-- \u{6ce8}\u{610f}: \u{89e6}\u{53d1}\u{5668}\u{5df2}\u{5bfc}\u{51fa}\u{5230}\u{5355}\u{72ec}\u{7684}\u{6587}\u{4ef6}: ",
        );
        trig_piece.append(trigger_file_name);
        trig_piece.append("\n");
        trig_piece.append(
            "-- \u{8bf7}\u{4f7f}\u{7528} DIsql \u{6216}\u{5176}\u{4ed6}\u{8fbe}\u{68a6}\u{539f}\u{751f}\u{5de5}\u{5177}\u{6267}\u{884c}\u{8be5}\u{6587}\u{4ef6}\n",
        );
    } else if trig_stmts.len() > 0 {
        trig_piece.append("\n");
        trig_piece.append(
            "-- \u{89e6}\u{53d1}\u{5668} (\u{7b2c}\u{4e8c}\u{6b65}: \u{8bf7}\u{5728} SEQUENCE \u{4e4b}\u{540e}\u{6267}\u{884c})\n",
        );
        append_statement_lines(&mut trig_piece, trig_stmts);
    }
    proof {
        assert(trig_piece@ =~= (if terminator is DataGripScript && trig_stmts.deep_view().len() > 0 {
            "\n"@ + "-- \u{89e6}\u{53d1}\u{5668} (\u{7b2c}\u{4e8c}\u{6b65}: \u{8bf7}\u{5728} SEQUENCE \u{4e4b}\u{540e}\u{6267}\u{884c})\n"@
                + "-- \u{6ce8}\u{610f}: \u{89e6}\u{53d1}\u{5668}\u{5df2}\u{5bfc}\u{51fa}\u{5230}\u{5355}\u{72ec}\u{7684}\u{6587}\u{4ef6}: "@
                + trigger_file_name@ + "\n"@
                + "-- \u{8bf7}\u{4f7f}\u{7528} DIsql \u{6216}\u{5176}\u{4ed6}\u{8fbe}\u{68a6}\u{539f}\u{751f}\u{5de5}\u{5177}\u{6267}\u{884c}\u{8be5}\u{6587}\u{4ef6}\n"@
        } else if trig_stmts.deep_view().len() > 0 {
            "\n"@ + "-- \u{89e6}\u{53d1}\u{5668} (\u{7b2c}\u{4e8c}\u{6b65}: \u{8bf7}\u{5728} SEQUENCE \u{4e4b}\u{540e}\u{6267}\u{884c})\n"@
                + spec_lines(trig_stmts.deep_view())
        } else {
            Seq::<char>::empty()
        }));
    }
    text.append(trig_piece.as_str());
    proof {
        assert(text@ =~= spec_ddl_tail_parts(
            fk_statements.deep_view(),
            seq_stmts.deep_view(),
            trig_stmts.deep_view(),
            terminator,
            trigger_file_name@,
        ));
    }
    text
}

/// Renders the separate trigger file.
#[verifier::rlimit(100)]
fn trigger_file_render(
    trig_stmts: &Vec<String>,
    trig_tables: &Vec<String>,
    target_upper: &str,
    timestamp: &str,
) -> (r: String)
    ensures
        r@ == spec_trigger_file_parts(
            trig_stmts.deep_view(),
            trig_tables.deep_view(),
            target_upper@,
            timestamp@,
        ),
{
    let mut tf = String::from_str("-- ============================================\n");
    tf.append("-- DM8 \u{89e6}\u{53d1}\u{5668} DDL \u{5bfc}\u{51fa}\u{811a}\u{672c}\n");
    tf.append("-- ============================================\n");
    tf.append("-- \u{751f}\u{6210}\u{65f6}\u{95f4}: ");
    tf.append(timestamp);
    tf.append("\n");
    tf.append("-- \u{76ee}\u{6807} Schema: ");
    tf.append(target_upper);
    tf.append("\n");
    tf.append("-- \u{89e6}\u{53d1}\u{5668}\u{6570}\u{91cf}: ");
    let cnt = crate::text::usize_to_string(trig_stmts.len());
    tf.append(cnt.as_str());
    tf.append("\n");
    tf.append("-- \u{6d89}\u{53ca}\u{7684}\u{8868}: ");
    let tt_joined = join_strings(trig_tables, ", ");
    tf.append(tt_joined.as_str());
    tf.append("\n");
    tf.append("--\n");
    tf.append("-- \u{6267}\u{884c}\u{65b9}\u{5f0f}:\n");
    tf.append(
        "--   1. \u{4f7f}\u{7528} DIsql \u{547d}\u{4ee4}\u{884c}\u{5de5}\u{5177}: disql USER/PASSWORD@HOST:PORT -f \u{6b64}\u{6587}\u{4ef6}\u{8def}\u{5f84}\n",
    );
    tf.append(
        "--   2. \u{4f7f}\u{7528}\u{8fbe}\u{68a6}\u{7ba1}\u{7406}\u{5de5}\u{5177}\u{6253}\u{5f00}\u{6b64}\u{6587}\u{4ef6}\u{5e76}\u{6267}\u{884c}\n",
    );
    tf.append(
        "--   3. \u{5728} DataGrip \u{4e2d}\u{9010}\u{6761}\u{9009}\u{4e2d}\u{89e6}\u{53d1}\u{5668}\u{8bed}\u{53e5}\u{6267}\u{884c} (\u{4e0d}\u{8981}\u{4f7f}\u{7528} Run Script)\n",
    );
    tf.append("--\n");
    tf.append(
        "-- \u{91cd}\u{8981}: \u{5fc5}\u{987b}\u{5148}\u{6267}\u{884c}\u{4e3b}DDL\u{6587}\u{4ef6}\u{4e2d}\u{7684} SEQUENCE\u{ff0c}\u{518d}\u{6267}\u{884c}\u{672c}\u{6587}\u{4ef6}\n",
    );
    tf.append(
        "-- \u{6ce8}\u{610f}: \u{6bcf}\u{4e2a}\u{89e6}\u{53d1}\u{5668}\u{4ee5} / \u{7ed3}\u{5c3e}\u{4f5c}\u{4e3a}\u{8bed}\u{53e5}\u{5206}\u{9694}\u{7b26}\n",
    );
    tf.append("-- ============================================\n");
    tf.append("\n");
    let ghost tf_head = tf@;
    let mut w: usize = 0;
    let ghost trig_dv = trig_stmts.deep_view();
    while w < trig_stmts.len()
        invariant
            trig_dv == trig_stmts.deep_view(),
            trig_dv.len() == trig_stmts@.len(),
            w <= trig_stmts@.len(),
            tf@ == tf_head + spec_trigger_lines(trig_dv.take(w as int)),
        decreases trig_stmts@.len() - w,
    {
        proof {
            assert(trig_dv.take(w + 1).drop_last() =~= trig_dv.take(w as int));
            assert(trig_dv.take(w + 1).last() == trig_dv[w as int]);
            assert(trig_dv[w as int] == trig_stmts@[w as int]@);
        }
        tf.append(trig_stmts[w].as_str());
        tf.append("\n");
        tf.append("\n");
        w = w + 1;
    }
    proof {
        assert(trig_dv.take(trig_dv.len() as int) =~= trig_dv);
        assert(tf@ =~= spec_trigger_file_parts(
            trig_stmts.deep_view(),
            trig_tables.deep_view(),
            target_upper@,
            timestamp@,
        ));
    }
    tf
}

} // verus!

verus! {

/// Running DDL generation twice against an unchanged object model produces
/// byte-identical output: the rendered script is a function of the table
/// and sequence views and the requested options alone, with no dependence
/// on iteration order, hashing or ambient state.
pub proof fn lemma_ddl_generation_deterministic(
    t1: Seq<crate::model::TableDetailsView>,
    t2: Seq<crate::model::TableDetailsView>,
    source_upper: Seq<char>,
    target_upper: Seq<char>,
    seqs: Seq<crate::model::SequenceView>,
    drop_existing: bool,
    terminator: TriggerTerminator,
    timestamp: Seq<char>,
    trigger_file_name: Seq<char>,
)
    requires
        t1 == t2,
    ensures
        spec_ddl_header(
            source_upper,
            target_upper,
            spec_table_names(t1),
            t1.len() as int,
            terminator,
            drop_existing,
            timestamp,
        ) + spec_ddl_tables(t1, target_upper, drop_existing) + spec_ddl_tail(
            t1,
            target_upper,
            seqs,
            terminator,
            trigger_file_name,
        ) == spec_ddl_header(
            source_upper,
            target_upper,
            spec_table_names(t2),
            t2.len() as int,
            terminator,
            drop_existing,
            timestamp,
        ) + spec_ddl_tables(t2, target_upper, drop_existing) + spec_ddl_tail(
            t2,
            target_upper,
            seqs,
            terminator,
            trigger_file_name,
        ),
{
}

} // verus!
