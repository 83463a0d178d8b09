//! Identifier quoting, literal escaping and per-type literal classification:
//! the rules that decide whether a raw catalog or data value is rendered
//! as-is, quoted, or wrapped in a conversion call.

use vstd::prelude::*;
use crate::text::{
    chars_of, contains_char, contains_lit, double_char_in, doubled, eq_str, has_prefix,
    has_substring, is_digit, is_digit_char, push_all, seq_join, split_char, split_on,
    starts_with_lit, string_of, join_strings, upper_seq, upper_vec, all_digits, subvec,
};

verus! {

/// Escaping a string literal doubles every embedded single quote.
pub open spec fn spec_escape_literal(s: Seq<char>) -> Seq<char> {
    doubled(s, '\'')
}

/// Doubles embedded single quotes so the text can stand inside a SQL
/// string literal.
pub fn escape_single_quotes(value: &str) -> (r: String)
    ensures
        r@ == spec_escape_literal(value@),
{
    let v = chars_of(value);
    let d = double_char_in(&v, '\'');
    string_of(&d)
}

/// One dot-free identifier segment, wrapped in double quotes with embedded
/// double quotes doubled.
pub open spec fn spec_quote_segment(s: Seq<char>) -> Seq<char> {
    seq!['"'] + doubled(s, '"') + seq!['"']
}

/// An identifier quoted segment by segment: split at every dot, each part
/// quoted, the parts joined by dots again.
pub open spec fn spec_quote_identifier(s: Seq<char>) -> Seq<char> {
    seq_join(split_on(s, '.').map_values(|p: Seq<char>| spec_quote_segment(p)), seq!['.'])
}

/// Quotes an identifier so reserved words and mixed case are preserved.
pub fn quote_identifier(identifier: &str) -> (r: String)
    ensures
        r@ == spec_quote_identifier(identifier@),
{
    let v = chars_of(identifier);
    let segments = split_char(&v, '.');
    let ghost segs = split_on(identifier@, '.');
    let mut quoted: Vec<String> = Vec::new();
    let mut i: usize = 0;
    while i < segments.len()
        invariant
            segments.deep_view() == segs,
            segs.len() == segments@.len(),
            i <= segments@.len(),
            quoted@.len() == i,
            forall|j: int| 0 <= j < i ==> #[trigger] quoted@[j]@ == spec_quote_segment(segs[j]),
        decreases segments@.len() - i,
    {
        proof {
            assert(segments@[i as int].deep_view() =~= segments@[i as int]@);
        }
        let mut part: Vec<char> = Vec::new();
        part.push('"');
        let body = double_char_in(&segments[i], '"');
        push_all(&mut part, &body);
        part.push('"');
        proof {
            assert(part@ =~= spec_quote_segment(segs[i as int]));
        }
        quoted.push(string_of(&part));
        i = i + 1;
    }
    let r = join_strings(&quoted, ".");
    proof {
        assert(quoted.deep_view() =~~= segs.map_values(|p: Seq<char>| spec_quote_segment(p))) by {
            assert(forall|j: int|
                0 <= j < quoted@.len() ==> #[trigger] quoted.deep_view()[j] == quoted@[j]@);
        }
        assert(seq!['.'] =~= "."@) by {
            reveal_strlit(".");
        }
    }
    r
}

/// The string type family (already upper-cased input).
pub open spec fn spec_is_string_type(dt: Seq<char>) -> bool {
    dt == "CHAR"@ || dt == "NCHAR"@ || dt == "VARCHAR"@ || dt == "VARCHAR2"@ || dt == "NVARCHAR"@
        || dt == "NVARCHAR2"@ || dt == "TEXT"@ || dt == "CLOB"@ || dt == "NCLOB"@ || dt == "LONG"@
        || dt == "LONG VARCHAR"@ || has_prefix(dt, "CHAR("@) || has_prefix(dt, "VARCHAR("@)
        || has_prefix(dt, "VARCHAR2("@) || has_prefix(dt, "NCHAR("@) || has_prefix(
        dt,
        "NVARCHAR("@,
    ) || has_prefix(dt, "NVARCHAR2("@)
}

/// Whether an (upper-cased) declared type is in the string family.
pub fn is_string_type(dt: &str) -> (r: bool)
    ensures
        r == spec_is_string_type(dt@),
{
    let v = chars_of(dt);
    eq_str(&v, "CHAR") || eq_str(&v, "NCHAR") || eq_str(&v, "VARCHAR") || eq_str(&v, "VARCHAR2")
        || eq_str(&v, "NVARCHAR") || eq_str(&v, "NVARCHAR2") || eq_str(&v, "TEXT") || eq_str(
        &v,
        "CLOB",
    ) || eq_str(&v, "NCLOB") || eq_str(&v, "LONG") || eq_str(&v, "LONG VARCHAR") || starts_with_lit(
        &v,
        "CHAR(",
    ) || starts_with_lit(&v, "VARCHAR(") || starts_with_lit(&v, "VARCHAR2(") || starts_with_lit(
        &v,
        "NCHAR(",
    ) || starts_with_lit(&v, "NVARCHAR(") || starts_with_lit(&v, "NVARCHAR2(")
}

/// The numeric type family used when rendering default values.
pub open spec fn spec_is_numeric_type(dt: Seq<char>) -> bool {
    dt == "NUMBER"@ || dt == "INTEGER"@ || dt == "INT"@ || dt == "SMALLINT"@ || dt == "TINYINT"@
        || dt == "BIGINT"@ || dt == "DECIMAL"@ || dt == "NUMERIC"@ || dt == "FLOAT"@ || dt
        == "DOUBLE"@ || dt == "DOUBLE PRECISION"@ || dt == "REAL"@ || dt == "BYTE"@ || has_prefix(
        dt,
        "NUMBER("@,
    ) || has_prefix(dt, "DECIMAL("@) || has_prefix(dt, "NUMERIC("@) || has_prefix(dt, "FLOAT("@)
}

/// Whether an (upper-cased) declared type is in the numeric family.
pub fn is_numeric_type(dt: &str) -> (r: bool)
    ensures
        r == spec_is_numeric_type(dt@),
{
    let v = chars_of(dt);
    eq_str(&v, "NUMBER") || eq_str(&v, "INTEGER") || eq_str(&v, "INT") || eq_str(&v, "SMALLINT")
        || eq_str(&v, "TINYINT") || eq_str(&v, "BIGINT") || eq_str(&v, "DECIMAL") || eq_str(
        &v,
        "NUMERIC",
    ) || eq_str(&v, "FLOAT") || eq_str(&v, "DOUBLE") || eq_str(&v, "DOUBLE PRECISION") || eq_str(
        &v,
        "REAL",
    ) || eq_str(&v, "BYTE") || starts_with_lit(&v, "NUMBER(") || starts_with_lit(&v, "DECIMAL(")
        || starts_with_lit(&v, "NUMERIC(") || starts_with_lit(&v, "FLOAT(")
}

/// The binary type family used when rendering default values.
pub open spec fn spec_is_binary_type(dt: Seq<char>) -> bool {
    dt == "RAW"@ || dt == "BINARY"@ || dt == "VARBINARY"@ || dt == "BLOB"@ || dt
        == "LONGVARBINARY"@ || has_prefix(dt, "RAW("@) || has_prefix(dt, "BINARY("@) || has_prefix(
        dt,
        "VARBINARY("@,
    )
}

/// Whether an (upper-cased) declared type is in the binary family.
pub fn is_binary_type(dt: &str) -> (r: bool)
    ensures
        r == spec_is_binary_type(dt@),
{
    let v = chars_of(dt);
    eq_str(&v, "RAW") || eq_str(&v, "BINARY") || eq_str(&v, "VARBINARY") || eq_str(&v, "BLOB")
        || eq_str(&v, "LONGVARBINARY") || starts_with_lit(&v, "RAW(") || starts_with_lit(
        &v,
        "BINARY(",
    ) || starts_with_lit(&v, "VARBINARY(")
}

} // verus!

verus! {

/// Index of the last occurrence of `c` in `s`.
pub open spec fn rfind_char(s: Seq<char>, c: char) -> Option<int>
    decreases s.len(),
{
    if s.len() == 0 {
        None
    } else if s.last() == c {
        Some(s.len() - 1)
    } else {
        rfind_char(s.drop_last(), c)
    }
}

/// Index of the last `+` or `-` in `s`.
pub open spec fn rfind_sign(s: Seq<char>) -> Option<int>
    decreases s.len(),
{
    if s.len() == 0 {
        None
    } else if s.last() == '+' || s.last() == '-' {
        Some(s.len() - 1)
    } else {
        rfind_sign(s.drop_last())
    }
}

/// Index of the first occurrence of `c` in `s`.
pub open spec fn find_char(s: Seq<char>, c: char) -> Option<int>
    decreases s.len(),
{
    if s.len() == 0 {
        None
    } else if s[0] == c {
        Some(0)
    } else {
        match find_char(s.drop_first(), c) {
            Some(i) => Some(i + 1),
            None => None,
        }
    }
}

/// Finds the last occurrence of `c` in `v`.
pub fn rfind_in(v: &Vec<char>, c: char) -> (r: Option<usize>)
    ensures
        match r {
            Some(p) => p < v@.len() && rfind_char(v@, c) == Some(p as int),
            None => rfind_char(v@, c) is None,
        },
{
    let mut i: usize = v.len();
    proof {
        assert(v@.take(v@.len() as int) =~= v@);
    }
    while i > 0
        invariant
            i <= v@.len(),
            rfind_char(v@, c) == rfind_char(v@.take(i as int), c),
        decreases i,
    {
        proof {
            assert(v@.take(i as int).last() == v@[i - 1]);
            assert(v@.take(i as int).drop_last() =~= v@.take(i - 1));
        }
        if v[i - 1] == c {
            return Some(i - 1);
        }
        i = i - 1;
    }
    proof {
        assert(v@.take(0) =~= Seq::<char>::empty());
    }
    None
}

/// Finds the last `+` or `-` in `v`.
pub fn rfind_sign_in(v: &Vec<char>) -> (r: Option<usize>)
    ensures
        match r {
            Some(p) => p < v@.len() && rfind_sign(v@) == Some(p as int),
            None => rfind_sign(v@) is None,
        },
{
    let mut i: usize = v.len();
    proof {
        assert(v@.take(v@.len() as int) =~= v@);
    }
    while i > 0
        invariant
            i <= v@.len(),
            rfind_sign(v@) == rfind_sign(v@.take(i as int)),
        decreases i,
    {
        proof {
            assert(v@.take(i as int).last() == v@[i - 1]);
            assert(v@.take(i as int).drop_last() =~= v@.take(i - 1));
        }
        if v[i - 1] == '+' || v[i - 1] == '-' {
            return Some(i - 1);
        }
        i = i - 1;
    }
    proof {
        assert(v@.take(0) =~= Seq::<char>::empty());
    }
    None
}

/// Finds the first occurrence of `c` in `v`.
pub fn find_in(v: &Vec<char>, c: char) -> (r: Option<usize>)
    ensures
        match r {
            Some(p) => p < v@.len() && find_char(v@, c) == Some(p as int),
            None => find_char(v@, c) is None,
        },
{
    let mut i: usize = 0;
    proof {
        assert(v@.skip(0) =~= v@);
    }
    while i < v.len()
        invariant
            i <= v@.len(),
            find_char(v@, c) == match find_char(v@.skip(i as int), c) {
                Some(p) => Some(p + i),
                None => None::<int>,
            },
        decreases v@.len() - i,
    {
        proof {
            assert(v@.skip(i as int)[0] == v@[i as int]);
            assert(v@.skip(i as int).drop_first() =~= v@.skip(i + 1));
        }
        if v[i] == c {
            return Some(i);
        }
        i = i + 1;
    }
    proof {
        assert(v@.skip(v@.len() as int) =~= Seq::<char>::empty());
    }
    None
}

/// `s` with every occurrence of the character `from` replaced by `to`.
pub open spec fn map_replace(s: Seq<char>, from: char, to: char) -> Seq<char> {
    s.map_values(|c: char| if c == from { to } else { c })
}

/// Replaces every `from` character by `to`.
pub fn replace_char(v: &Vec<char>, from: char, to: char) -> (r: Vec<char>)
    ensures
        r@ == map_replace(v@, from, to),
{
    let mut r: Vec<char> = Vec::new();
    let mut i: usize = 0;
    while i < v.len()
        invariant
            i <= v@.len(),
            r@.len() == i,
            forall|j: int|
                0 <= j < i ==> r@[j] == (if v@[j] == from {
                    to
                } else {
                    v@[j]
                }),
        decreases v@.len() - i,
    {
        if v[i] == from {
            r.push(to);
        } else {
            r.push(v[i]);
        }
        i = i + 1;
    }
    proof {
        assert(r@ =~= map_replace(v@, from, to));
    }
    r
}

/// `s` with every leading repetition of `pat` removed.
pub open spec fn strip_prefix_all(s: Seq<char>, pat: Seq<char>) -> Seq<char>
    decreases s.len(),
{
    if pat.len() > 0 && has_prefix(s, pat) {
        strip_prefix_all(s.skip(pat.len() as int), pat)
    } else {
        s
    }
}

/// Removes every leading repetition of the literal `pat`.
pub fn strip_prefix_repeated(v: &Vec<char>, pat: &str) -> (r: Vec<char>)
    ensures
        r@ == strip_prefix_all(v@, pat@),
{
    let plen = pat.unicode_len();
    let vlen = v.len();
    let mut i: usize = 0;
    proof {
        assert(v@.skip(0) =~= v@);
    }
    while plen > 0 && crate::text::matches_at_pub(v, i, pat)
        invariant
            plen == pat@.len(),
            vlen == v@.len(),
            i <= v@.len(),
            strip_prefix_all(v@, pat@) == strip_prefix_all(v@.skip(i as int), pat@),
        decreases v@.len() - i,
    {
        proof {
            let rest = v@.skip(i as int);
            assert(rest.take(pat@.len() as int) =~= v@.subrange(i as int, i + pat@.len()));
            assert(has_prefix(rest, pat@));
            assert(rest.skip(pat@.len() as int) =~= v@.skip(i + plen));
        }
        i = i + plen;
    }
    let ghost rest = v@.skip(i as int);
    proof {
        if plen > 0 {
            if i + plen <= v@.len() {
                assert(rest.take(pat@.len() as int) =~= v@.subrange(i as int, i + pat@.len()));
            }
            assert(!has_prefix(rest, pat@));
        }
        assert(strip_prefix_all(rest, pat@) == rest);
    }
    let mut r: Vec<char> = Vec::new();
    let mut j: usize = i;
    while j < v.len()
        invariant
            i <= j <= v@.len(),
            r@.len() == j - i,
            forall|k: int| 0 <= k < j - i ==> r@[k] == v@[i + k],
        decreases v@.len() - j,
    {
        r.push(v[j]);
        j = j + 1;
    }
    proof {
        assert(r@ =~= v@.skip(i as int));
    }
    r
}

} // verus!

verus! {

/// The digit/dot/exponent scanner that accepts the tail of a numeric
/// literal from position `i`, given what has been seen so far.
pub open spec fn numeric_tail(
    s: Seq<char>,
    i: int,
    has_digit: bool,
    has_dot: bool,
    has_exp: bool,
) -> bool
    decreases s.len() - i,
{
    if i < 0 || i > s.len() {
        false
    } else if i == s.len() {
        has_digit
    } else {
        let c = s[i];
        if is_digit(c) {
            numeric_tail(s, i + 1, true, has_dot, has_exp)
        } else if c == '.' && !has_dot && !has_exp {
            numeric_tail(s, i + 1, has_digit, true, has_exp)
        } else if (c == 'e' || c == 'E') && has_digit && !has_exp {
            if i + 1 < s.len() && (s[i + 1] == '+' || s[i + 1] == '-') {
                numeric_tail(s, i + 2, false, has_dot, true)
            } else {
                numeric_tail(s, i + 1, false, has_dot, true)
            }
        } else {
            false
        }
    }
}

/// An optionally signed, optionally fractional, optionally scientific
/// decimal number.
pub open spec fn spec_is_numeric_literal(s: Seq<char>) -> bool {
    if s.len() == 0 {
        false
    } else if s[0] == '+' || s[0] == '-' {
        numeric_tail(s, 1, false, false, false)
    } else {
        numeric_tail(s, 0, false, false, false)
    }
}

/// Whether `expr` looks like a numeric literal, scientific notation
/// included.
pub fn is_numeric_literal(expr: &str) -> (r: bool)
    ensures
        r == spec_is_numeric_literal(expr@),
{
    let v = chars_of(expr);
    if v.len() == 0 {
        return false;
    }
    let mut i: usize = if v[0] == '+' || v[0] == '-' {
        1
    } else {
        0
    };
    let mut has_digit = false;
    let mut has_dot = false;
    let mut has_exp = false;
    let vlen = v.len();
    while i < vlen
        invariant
            v@ == expr@,
            vlen == v@.len(),
            i <= vlen,
            spec_is_numeric_literal(v@) == numeric_tail(v@, i as int, has_digit, has_dot, has_exp),
        decreases vlen - i,
    {
        let c = v[i];
        if is_digit_char(c) {
            has_digit = true;
            i = i + 1;
        } else if c == '.' && !has_dot && !has_exp {
            has_dot = true;
            i = i + 1;
        } else if (c == 'e' || c == 'E') && has_digit && !has_exp {
            has_exp = true;
            has_digit = false;
            if i + 1 < vlen && (v[i + 1] == '+' || v[i + 1] == '-') {
                i = i + 2;
            } else {
                i = i + 1;
            }
        } else {
            return false;
        }
    }
    has_digit
}

pub open spec fn is_date_sep(c: char) -> bool {
    c == '-' || c == ' ' || c == ':' || c == '.' || c == 'T'
}

/// `s` split at every date/time separator.
pub open spec fn split_date(s: Seq<char>) -> Seq<Seq<char>>
    decreases s.len(),
{
    if s.len() == 0 {
        seq![Seq::<char>::empty()]
    } else if is_date_sep(s.last()) {
        split_date(s.drop_last()).push(Seq::empty())
    } else {
        let r = split_date(s.drop_last());
        r.update(r.len() - 1, r.last().push(s.last()))
    }
}

/// Splits `v` at every date/time separator.
fn split_date_parts(v: &Vec<char>) -> (r: Vec<Vec<char>>)
    ensures
        r.deep_view() == split_date(v@),
        r@.len() >= 1,
{
    let mut done: Vec<Vec<char>> = Vec::new();
    let mut cur: Vec<char> = Vec::new();
    let mut i: usize = 0;
    while i < v.len()
        invariant
            i <= v@.len(),
            split_date(v@.take(i as int)) =~= done.deep_view().push(cur@),
        decreases v@.len() - i,
    {
        proof {
            assert(v@.take(i + 1).drop_last() =~= v@.take(i as int));
            assert(v@.take(i + 1).last() == v@[i as int]);
        }
        let ghost old_done = done.deep_view();
        let ghost old_cur = cur@;
        let c = v[i];
        if c == '-' || c == ' ' || c == ':' || c == '.' || c == 'T' {
            done.push(cur);
            cur = Vec::new();
            proof {
                assert(done.deep_view() =~~= old_done.push(old_cur));
                assert(split_date(v@.take(i + 1)) =~= old_done.push(old_cur).push(
                    Seq::<char>::empty(),
                ));
            }
        } else {
            cur.push(c);
            proof {
                let r = old_done.push(old_cur);
                assert(r.update(r.len() - 1, r.last().push(v@[i as int])) =~= old_done.push(
                    old_cur.push(v@[i as int]),
                ));
                assert(split_date(v@.take(i + 1)) =~= old_done.push(old_cur.push(v@[i as int])));
            }
        }
        i = i + 1;
    }
    let ghost final_done = done.deep_view();
    let ghost final_cur = cur@;
    done.push(cur);
    proof {
        assert(v@.take(v@.len() as int) =~= v@);
        assert(done.deep_view() =~~= final_done.push(final_cur));
    }
    done
}

/// A year-month-day shape: a four-digit year, then a one-or-two-digit
/// month and day, optionally followed by further time fields.
pub open spec fn spec_is_date_literal(s: Seq<char>) -> bool {
    let p = split_date(s);
    p.len() >= 3 && p[0].len() == 4 && all_digits(p[0]) && 1 <= p[1].len() <= 2 && all_digits(p[1])
        && 1 <= p[2].len() <= 2 && all_digits(p[2])
}

/// Checks that all characters of `part` are decimal digits.
fn part_all_digits(part: &Vec<char>) -> (r: bool)
    ensures
        r == all_digits(part@),
{
    let mut i: usize = 0;
    while i < part.len()
        invariant
            i <= part@.len(),
            forall|j: int| 0 <= j < i ==> is_digit(#[trigger] part@[j]),
        decreases part@.len() - i,
    {
        if !is_digit_char(part[i]) {
            return false;
        }
        i = i + 1;
    }
    true
}

/// Whether `expr` looks like a `YYYY-M[M]-D[D]` date, optionally with a
/// time part.
pub fn is_date_literal(expr: &str) -> (r: bool)
    ensures
        r == spec_is_date_literal(expr@),
{
    let v = chars_of(expr);
    let parts = split_date_parts(&v);
    proof {
        assert(forall|j: int|
            0 <= j < parts@.len() ==> #[trigger] parts@[j].deep_view() =~= parts@[j]@);
    }
    if parts.len() < 3 {
        return false;
    }
    let ok0 = parts[0].len() == 4 && part_all_digits(&parts[0]);
    let ok1 = parts[1].len() >= 1 && parts[1].len() <= 2 && part_all_digits(&parts[1]);
    let ok2 = parts[2].len() >= 1 && parts[2].len() <= 2 && part_all_digits(&parts[2]);
    ok0 && ok1 && ok2
}

/// A date literal that also carries a time separator.
pub open spec fn spec_is_timestamp_literal(s: Seq<char>) -> bool {
    spec_is_date_literal(s) && (s.contains(':') || s.contains('T'))
}

/// Whether `expr` looks like a timestamp literal (date plus time part).
pub fn is_timestamp_literal(expr: &str) -> (r: bool)
    ensures
        r == spec_is_timestamp_literal(expr@),
{
    if !is_date_literal(expr) {
        return false;
    }
    let v = chars_of(expr);
    contains_char(&v, ':') || contains_char(&v, 'T')
}

/// Operators and keywords that mark `expr` as a SQL expression rather
/// than a plain literal value.
pub open spec fn spec_looks_like_expression(expr: Seq<char>) -> bool {
    let u = upper_seq(expr);
    has_substring(u, "||"@) || has_substring(u, " AND "@) || has_substring(u, " OR "@)
        || has_substring(u, " CASE "@) || has_prefix(u, "CASE "@) || has_substring(u, ".NEXTVAL"@)
        || has_substring(u, ".CURRVAL"@) || expr.contains('(') || expr.contains(')')
}

/// Whether `expr` looks like a SQL expression rather than a plain literal.
pub fn looks_like_expression(expr: &str) -> (r: bool)
    ensures
        r == spec_looks_like_expression(expr@),
{
    let v = chars_of(expr);
    let u = upper_vec(&v);
    contains_lit(&u, "||") || contains_lit(&u, " AND ") || contains_lit(&u, " OR ") || contains_lit(
        &u,
        " CASE ",
    ) || starts_with_lit(&u, "CASE ") || contains_lit(&u, ".NEXTVAL") || contains_lit(
        &u,
        ".CURRVAL",
    ) || contains_char(&v, '(') || contains_char(&v, ')')
}

} // verus!

verus! {

/// A trailing timezone shape as the default-value renderer detects it: the
/// last `+` always counts; the last `-` only after a time part.
pub open spec fn spec_has_timezone(s: Seq<char>) -> bool {
    match rfind_char(s, '+') {
        Some(p) => s.len() - p >= 5 && is_digit(s[p + 1]),
        None => match rfind_char(s, '-') {
            Some(p) => if s.take(p).contains(':') {
                s.len() - p >= 5 && is_digit(s[p + 1])
            } else {
                false
            },
            None => false,
        },
    }
}

/// Whether `expr` carries timezone information at its end.
pub fn has_timezone(expr: &str) -> (r: bool)
    ensures
        r == spec_has_timezone(expr@),
{
    let v = chars_of(expr);
    match rfind_in(&v, '+') {
        Some(p) => v.len() - p >= 5 && is_digit_char(v[p + 1]),
        None => match rfind_in(&v, '-') {
            Some(p) => {
                let prefix = subvec(&v, 0, p);
                if contains_char(&prefix, ':') {
                    proof {
                        assert(v@.subrange(0, p as int) =~= v@.take(p as int));
                    }
                    v.len() - p >= 5 && is_digit_char(v[p + 1])
                } else {
                    proof {
                        assert(v@.subrange(0, p as int) =~= v@.take(p as int));
                    }
                    false
                }
            },
            None => false,
        },
    }
}

/// A strict `+HH:MM` / `-HH:MM` offset after the time part, as the data
/// exporter detects it on normalized values.
pub open spec fn spec_has_timezone_offset(s: Seq<char>) -> bool {
    match rfind_sign(s) {
        Some(p) => s.take(p).contains(':') && s.len() - (p + 1) == 5 && is_digit(s[p + 1])
            && is_digit(s[p + 2]) && s[p + 3] == ':' && is_digit(s[p + 4]) && is_digit(s[p + 5]),
        None => false,
    }
}

/// Whether normalized timestamp text ends in a `+HH:MM`-shaped offset.
pub fn has_timezone_offset(s: &str) -> (r: bool)
    ensures
        r == spec_has_timezone_offset(s@),
{
    let v = chars_of(s);
    match rfind_sign_in(&v) {
        Some(p) => {
            let prefix = subvec(&v, 0, p);
            proof {
                assert(v@.subrange(0, p as int) =~= v@.take(p as int));
            }
            if !contains_char(&prefix, ':') {
                return false;
            }
            if v.len() - (p + 1) != 5 {
                return false;
            }
            is_digit_char(v[p + 1]) && is_digit_char(v[p + 2]) && v[p + 3] == ':' && is_digit_char(
                v[p + 4],
            ) && is_digit_char(v[p + 5])
        },
        None => false,
    }
}

/// ISO-8601 normalization for default values: `T` becomes a space and a
/// trailing `Z` becomes an explicit `+00:00` offset.
pub open spec fn spec_normalize_iso_timestamp(s: Seq<char>) -> Seq<char> {
    let t = map_replace(s, 'T', ' ');
    if t.len() > 0 && t.last() == 'Z' {
        t.drop_last() + "+00:00"@
    } else {
        t
    }
}

/// Normalizes an ISO-8601 timestamp for the default-value renderer.
pub fn normalize_iso_timestamp(expr: &str) -> (r: String)
    ensures
        r@ == spec_normalize_iso_timestamp(expr@),
{
    let v = chars_of(expr);
    let mut t = replace_char(&v, 'T', ' ');
    if t.len() > 0 && t[t.len() - 1] == 'Z' {
        let _ = t.pop();
        let mut s = string_of(&t);
        s.append("+00:00");
        return s;
    }
    string_of(&t)
}

/// Full ISO-8601 normalization for row values: `T` to space, comma to dot,
/// `Z` to `+00:00`, and 2- or 4-digit offsets widened to `HH:MM`.
pub open spec fn spec_normalize_iso8601(s: Seq<char>) -> Seq<char> {
    let a = map_replace(map_replace(s, 'T', ' '), ',', '.');
    if a.len() > 0 && (a.last() == 'Z' || a.last() == 'z') {
        a.drop_last() + "+00:00"@
    } else {
        match rfind_sign(a) {
            Some(p) => if a.take(p).contains(':') {
                let off_len = a.len() - (p + 1);
                if off_len == 2 && all_digits(a.skip(p + 1)) {
                    a + ":00"@
                } else if off_len == 4 && all_digits(a.skip(p + 1)) {
                    a.take(p + 3) + seq![':'] + a.skip(p + 3)
                } else {
                    a
                }
            } else {
                a
            },
            None => a,
        }
    }
}

/// Normalizes an ISO-8601 timestamp for the data exporter.
pub fn normalize_iso8601_timestamp(raw: &str) -> (r: String)
    ensures
        r@ == spec_normalize_iso8601(raw@),
{
    let v0 = chars_of(raw);
    let v1 = replace_char(&v0, 'T', ' ');
    let a = replace_char(&v1, ',', '.');
    if a.len() > 0 && (a[a.len() - 1] == 'Z' || a[a.len() - 1] == 'z') {
        let head = subvec(&a, 0, a.len() - 1);
        proof {
            assert(a@.subrange(0, a@.len() - 1) =~= a@.drop_last());
        }
        let mut s = string_of(&head);
        s.append("+00:00");
        return s;
    }
    match rfind_sign_in(&a) {
        Some(p) => {
            let prefix = subvec(&a, 0, p);
            proof {
                assert(a@.subrange(0, p as int) =~= a@.take(p as int));
            }
            if contains_char(&prefix, ':') {
                let off = subvec(&a, p + 1, a.len());
                proof {
                    assert(a@.subrange(p + 1, a@.len() as int) =~= a@.skip(p + 1));
                }
                if off.len() == 2 && part_all_digits(&off) {
                    let mut s = string_of(&a);
                    s.append(":00");
                    return s;
                }
                if off.len() == 4 && part_all_digits(&off) {
                    let head = subvec(&a, 0, p + 3);
                    let tail = subvec(&a, p + 3, a.len());
                    proof {
                        assert(a@.subrange(0, p + 3) =~= a@.take(p + 3));
                        assert(a@.subrange(p + 3, a@.len() as int) =~= a@.skip(p + 3));
                    }
                    let mut s = string_of(&head);
                    s.append(":");
                    let tail_s = string_of(&tail);
                    s.append(tail_s.as_str());
                    proof {
                        assert(":"@ =~= seq![':']) by {
                            reveal_strlit(":");
                        }
                    }
                    return s;
                }
                string_of(&a)
            } else {
                string_of(&a)
            }
        },
        None => string_of(&a),
    }
}

/// The format string matching a normalized timestamp value: fractional
/// seconds when a dot follows the time part, a timezone part on request.
pub open spec fn spec_build_timestamp_format(expr: Seq<char>, with_timezone: bool) -> Seq<char> {
    let base = "YYYY-MM-DD HH24:MI:SS"@;
    let f1 = match rfind_char(expr, '.') {
        Some(d) => if expr.take(d).contains(':') {
            base + ".FF"@
        } else {
            base
        },
        None => base,
    };
    if with_timezone && spec_has_timezone(expr) {
        f1 + " TZH:TZM"@
    } else {
        f1
    }
}

/// Builds the conversion format string for a timestamp default value.
pub fn build_timestamp_format(expr: &str, with_timezone: bool) -> (r: String)
    ensures
        r@ == spec_build_timestamp_format(expr@, with_timezone),
{
    let v = chars_of(expr);
    let mut format = String::from_str("YYYY-MM-DD HH24:MI:SS");
    match rfind_in(&v, '.') {
        Some(d) => {
            let prefix = subvec(&v, 0, d);
            proof {
                assert(v@.subrange(0, d as int) =~= v@.take(d as int));
            }
            if contains_char(&prefix, ':') {
                format.append(".FF");
            }
        },
        None => {},
    }
    if with_timezone && has_timezone(expr) {
        format.append(" TZH:TZM");
    }
    format
}

} // verus!

verus! {

/// The inverse of quote-doubling: every doubled occurrence of `d` is
/// collapsed back to a single one.
pub open spec fn undoubled(s: Seq<char>, d: char) -> Seq<char>
    decreases s.len(),
{
    if s.len() == 0 {
        s
    } else if s.len() >= 2 && s[0] == d && s[1] == d {
        seq![d] + undoubled(s.skip(2), d)
    } else {
        seq![s[0]] + undoubled(s.drop_first(), d)
    }
}

/// Re-parsing one quoted segment: strip the outer quotes, undouble the
/// inner ones.
pub open spec fn spec_unquote_segment(q: Seq<char>) -> Seq<char> {
    undoubled(q.subrange(1, q.len() - 1), '"')
}

/// Re-parsing a quoted identifier: split at the dots, unquote each
/// segment, join the original segments back with dots.
pub open spec fn spec_unquote_identifier(out: Seq<char>) -> Seq<char> {
    seq_join(
        split_on(out, '.').map_values(|p: Seq<char>| spec_unquote_segment(p)),
        seq!['.'],
    )
}

proof fn lemma_doubled_first(s: Seq<char>, d: char)
    requires
        s.len() > 0,
    ensures
        doubled(s, d) == (if s[0] == d {
            seq![d, d]
        } else {
            seq![s[0]]
        }) + doubled(s.drop_first(), d),
    decreases s.len(),
{
    if s.len() == 1 {
        assert(s.drop_last() =~= Seq::<char>::empty());
        assert(s.drop_first() =~= Seq::<char>::empty());
        assert(doubled(s, d) =~= (if s[0] == d {
            seq![d, d]
        } else {
            seq![s[0]]
        }) + doubled(s.drop_first(), d));
    } else {
        lemma_doubled_first(s.drop_last(), d);
        assert(s.drop_last()[0] == s[0]);
        assert(s.drop_last().drop_first() =~= s.drop_first().drop_last());
        assert(s.drop_first().last() == s.last());
        assert(doubled(s, d) == doubled(s.drop_last(), d) + (if s.last() == d {
            seq![d, d]
        } else {
            seq![s.last()]
        }));
        assert(doubled(s.drop_first(), d) == doubled(s.drop_first().drop_last(), d) + (
        if s.last() == d {
            seq![d, d]
        } else {
            seq![s.last()]
        }));
        assert(doubled(s, d) =~= (if s[0] == d {
            seq![d, d]
        } else {
            seq![s[0]]
        }) + doubled(s.drop_first(), d));
    }
}

/// Quote-doubling round-trips at the character level: undoubling the
/// doubled text gives back the original.
pub proof fn lemma_undouble_double(s: Seq<char>, d: char)
    ensures
        undoubled(doubled(s, d), d) == s,
    decreases s.len(),
{
    if s.len() == 0 {
        assert(doubled(s, d) =~= Seq::<char>::empty());
    } else {
        lemma_doubled_first(s, d);
        lemma_undouble_double(s.drop_first(), d);
        let ds = doubled(s, d);
        if s[0] == d {
            assert(ds == seq![d, d] + doubled(s.drop_first(), d));
            assert(ds[0] == d && ds[1] == d);
            assert(ds.skip(2) =~= doubled(s.drop_first(), d));
            assert(undoubled(ds, d) == seq![d] + s.drop_first());
            assert(seq![d] + s.drop_first() =~= s);
        } else {
            assert(ds == seq![s[0]] + doubled(s.drop_first(), d));
            assert(ds[0] == s[0]);
            if ds.len() >= 2 && ds[0] == d && ds[1] == d {
                assert(false);
            }
            assert(ds.drop_first() =~= doubled(s.drop_first(), d));
            assert(undoubled(ds, d) == seq![s[0]] + s.drop_first());
            assert(seq![s[0]] + s.drop_first() =~= s);
        }
    }
}

proof fn lemma_doubled_keeps_free(s: Seq<char>, d: char, c: char)
    requires
        !s.contains(c),
        c != d,
    ensures
        !doubled(s, d).contains(c),
    decreases s.len(),
{
    if s.len() > 0 {
        assert(!s.drop_last().contains(c)) by {
            assert(forall|i: int| 0 <= i < s.drop_last().len() ==> s.drop_last()[i] == s[i]);
        }
        lemma_doubled_keeps_free(s.drop_last(), d, c);
        assert(s.last() != c);
        let piece = if s.last() == d {
            seq![d, d]
        } else {
            seq![s.last()]
        };
        assert(!piece.contains(c));
        assert forall|i: int| 0 <= i < doubled(s, d).len() implies doubled(s, d)[i] != c by {
            if i < doubled(s.drop_last(), d).len() {
                assert(doubled(s, d)[i] == doubled(s.drop_last(), d)[i]);
            } else {
                assert(doubled(s, d)[i] == piece[i - doubled(s.drop_last(), d).len()]);
            }
        }
    }
}

proof fn lemma_split_parts_free(s: Seq<char>, c: char)
    ensures
        forall|i: int|
            0 <= i < split_on(s, c).len() ==> !(#[trigger] split_on(s, c)[i]).contains(c),
    decreases s.len(),
{
    crate::text::lemma_split_on_len(s, c);
    if s.len() == 0 {
        assert forall|i: int|
            0 <= i < split_on(s, c).len() implies !(#[trigger] split_on(s, c)[i]).contains(c) by {
            assert(split_on(s, c)[i] =~= Seq::<char>::empty());
        }
    } else {
        lemma_split_parts_free(s.drop_last(), c);
        let r = split_on(s.drop_last(), c);
        crate::text::lemma_split_on_len(s.drop_last(), c);
        assert(r.last() == r[r.len() - 1]);
        if s.last() == c {
            let r3 = r.push(Seq::<char>::empty());
            assert(split_on(s, c) == r3);
            assert forall|i: int| 0 <= i < r3.len() implies !(#[trigger] r3[i]).contains(c) by {
                if i < r.len() {
                    assert(r3[i] == r[i]);
                } else {
                    assert(r3[i] =~= Seq::<char>::empty());
                }
            }
        } else {
            let r2 = r.update(r.len() - 1, r.last().push(s.last()));
            assert(split_on(s, c) == r2);
            assert forall|i: int| 0 <= i < r2.len() implies !(#[trigger] r2[i]).contains(c) by {
                if i < r.len() - 1 {
                    assert(r2[i] == r[i]);
                } else {
                    assert(r2[i] == r.last().push(s.last()));
                    assert(!r.last().contains(c));
                    assert(forall|j: int|
                        0 <= j < r2[i].len() - 1 ==> r2[i][j] == r.last()[j]);
                }
            }
        }
    }
}

proof fn lemma_join_split(s: Seq<char>, c: char)
    ensures
        seq_join(split_on(s, c), seq![c]) == s,
    decreases s.len(),
{
    crate::text::lemma_split_on_len(s, c);
    if s.len() == 0 {
        assert(seq_join(split_on(s, c), seq![c]) =~= s);
    } else {
        lemma_join_split(s.drop_last(), c);
        let r = split_on(s.drop_last(), c);
        crate::text::lemma_split_on_len(s.drop_last(), c);
        if s.last() == c {
            let r3 = r.push(Seq::<char>::empty());
            assert(split_on(s, c) == r3);
            assert(r3.drop_last() =~= r);
            assert(seq_join(r3, seq![c]) == seq_join(r, seq![c]) + seq![c]
                + Seq::<char>::empty());
            assert(seq_join(r3, seq![c]) =~= s);
        } else {
            let r2 = r.update(r.len() - 1, r.last().push(s.last()));
            assert(split_on(s, c) == r2);
            if r.len() == 1 {
                assert(seq_join(r2, seq![c]) == r2[0]);
                assert(r2[0] == r[0].push(s.last()));
                assert(seq_join(r, seq![c]) == r[0]);
                assert(r[0] == s.drop_last());
                assert(s.drop_last().push(s.last()) =~= s);
            } else {
                assert(r2.drop_last() =~= r.drop_last());
                assert(r2.last() == r.last().push(s.last()));
                assert(seq_join(r2, seq![c]) == seq_join(r.drop_last(), seq![c]) + seq![c]
                    + r.last().push(s.last()));
                assert(seq_join(r, seq![c]) == seq_join(r.drop_last(), seq![c]) + seq![c]
                    + r.last());
                assert(seq_join(r.drop_last(), seq![c]) + seq![c] + r.last().push(s.last())
                    =~= (seq_join(r.drop_last(), seq![c]) + seq![c] + r.last()).push(s.last()));
                assert(seq_join(r2, seq![c]) == s.drop_last().push(s.last()));
                assert(s.drop_last().push(s.last()) =~= s);
            }
        }
    }
}

proof fn lemma_split_of_free(p: Seq<char>, c: char)
    requires
        !p.contains(c),
    ensures
        split_on(p, c) == seq![p],
    decreases p.len(),
{
    if p.len() == 0 {
        assert(split_on(p, c) =~~= seq![p]);
    } else {
        assert(!p.drop_last().contains(c)) by {
            assert(forall|i: int| 0 <= i < p.drop_last().len() ==> p.drop_last()[i] == p[i]);
        }
        lemma_split_of_free(p.drop_last(), c);
        assert(p.last() != c);
        let r = split_on(p.drop_last(), c);
        assert(r == seq![p.drop_last()]);
        let r2 = r.update(r.len() - 1, r.last().push(p.last()));
        assert(split_on(p, c) == r2);
        assert(r2 =~= seq![p.drop_last().push(p.last())]);
        assert(p.drop_last().push(p.last()) =~= p);
        assert(r2 =~= seq![p]);
    }
}

proof fn lemma_split_append_part(x: Seq<char>, p: Seq<char>, c: char)
    requires
        !p.contains(c),
    ensures
        split_on(x + seq![c] + p, c) == split_on(x, c).push(p),
    decreases p.len(),
{
    crate::text::lemma_split_on_len(x, c);
    if p.len() == 0 {
        let s = x + seq![c] + p;
        assert(s =~= x + seq![c]);
        assert(s.len() > 0 && s.last() == c);
        assert(s.drop_last() =~= x);
        assert(split_on(s, c) == split_on(x, c).push(Seq::<char>::empty()));
        assert(split_on(x, c).push(Seq::<char>::empty()) =~~= split_on(x, c).push(p));
    } else {
        assert(!p.drop_last().contains(c)) by {
            assert(forall|i: int| 0 <= i < p.drop_last().len() ==> p.drop_last()[i] == p[i]);
        }
        lemma_split_append_part(x, p.drop_last(), c);
        let s = x + seq![c] + p;
        let s0 = x + seq![c] + p.drop_last();
        assert(s.drop_last() =~= s0);
        assert(s.last() == p.last());
        assert(p.last() != c);
        let r = split_on(s0, c);
        assert(r == split_on(x, c).push(p.drop_last()));
        crate::text::lemma_split_on_len(s0, c);
        let r2 = r.update(r.len() - 1, r.last().push(s.last()));
        assert(split_on(s, c) == r2);
        assert(r.last() == p.drop_last());
        assert(r2 =~= split_on(x, c).push(p.drop_last().push(p.last())));
        assert(p.drop_last().push(p.last()) =~= p);
    }
}

proof fn lemma_split_join_inverse(parts: Seq<Seq<char>>, c: char)
    requires
        parts.len() >= 1,
        forall|i: int| 0 <= i < parts.len() ==> !(#[trigger] parts[i]).contains(c),
    ensures
        split_on(seq_join(parts, seq![c]), c) == parts,
    decreases parts.len(),
{
    if parts.len() == 1 {
        assert(seq_join(parts, seq![c]) == parts[0]);
        lemma_split_of_free(parts[0], c);
        assert(seq![parts[0]] =~= parts);
    } else {
        assert(forall|i: int|
            0 <= i < parts.drop_last().len() ==> !(#[trigger] parts.drop_last()[i]).contains(c));
        lemma_split_join_inverse(parts.drop_last(), c);
        assert(seq_join(parts, seq![c]) == seq_join(parts.drop_last(), seq![c]) + seq![c]
            + parts.last());
        lemma_split_append_part(seq_join(parts.drop_last(), seq![c]), parts.last(), c);
        assert(split_on(seq_join(parts, seq![c]), c) == split_on(
            seq_join(parts.drop_last(), seq![c]),
            c,
        ).push(parts.last()));
        assert(parts.drop_last().push(parts.last()) =~= parts);
    }
}

/// Quote-doubling round-trips: for every identifier, the quoted output
/// re-parses to the original name, embedded quote characters included.
pub proof fn lemma_quote_identifier_round_trip(name: Seq<char>)
    ensures
        spec_unquote_identifier(spec_quote_identifier(name)) == name,
{
    let segs = split_on(name, '.');
    let qp = segs.map_values(|p: Seq<char>| spec_quote_segment(p));
    crate::text::lemma_split_on_len(name, '.');
    lemma_split_parts_free(name, '.');
    assert forall|i: int| 0 <= i < qp.len() implies !(#[trigger] qp[i]).contains('.') by {
        assert(qp[i] == spec_quote_segment(segs[i]));
        lemma_doubled_keeps_free(segs[i], '"', '.');
        let d = doubled(segs[i], '"');
        assert forall|j: int| 0 <= j < qp[i].len() implies qp[i][j] != '.' by {
            if j == 0 || j == qp[i].len() - 1 {
                assert(qp[i][j] == '"');
            } else {
                assert(qp[i][j] == d[j - 1]);
            }
        }
    }
    lemma_split_join_inverse(qp, '.');
    assert(split_on(spec_quote_identifier(name), '.') == qp);
    let unq = qp.map_values(|p: Seq<char>| spec_unquote_segment(p));
    assert forall|i: int| 0 <= i < unq.len() implies #[trigger] unq[i] == segs[i] by {
        assert(unq[i] == spec_unquote_segment(qp[i]));
        assert(qp[i] == spec_quote_segment(segs[i]));
        assert(qp[i].subrange(1, qp[i].len() - 1) =~= doubled(segs[i], '"'));
        lemma_undouble_double(segs[i], '"');
    }
    assert(unq =~= segs);
    lemma_join_split(name, '.');
    assert(spec_unquote_identifier(spec_quote_identifier(name)) == seq_join(segs, seq!['.']));
}

} // verus!
