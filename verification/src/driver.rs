//! Decision logic of the native-driver discovery: parsing the ODBC
//! installation registry file for the DM8 driver entry.

use vstd::prelude::*;
use crate::text::{
    chars_of, has_prefix, lower_seq, lower_vec, split_lines, starts_with_lit, string_of, subvec,
    trim_brackets, trim_brackets_vec, trim_spec, trim_vec,
};
use crate::literal::{find_char, find_in};

verus! {

/// The driver path named by the `[DM8 ODBC DRIVER]` section: scanning the
/// lines in order, a bracketed line selects the section (lower-cased,
/// brackets stripped), and inside the right section the first `driver...`
/// key's value (trimmed) is the answer.
pub open spec fn spec_parse_odbcinst(lines: Seq<Seq<char>>, k: int, in_dm8: bool) -> Option<
    Seq<char>,
>
    decreases lines.len() - k,
{
    if k < 0 || k >= lines.len() {
        None
    } else {
        let t = trim_spec(lines[k]);
        if t.len() > 0 && t[0] == '[' && t.last() == ']' {
            spec_parse_odbcinst(
                lines,
                k + 1,
                lower_seq(trim_brackets(t)) == "dm8 odbc driver"@,
            )
        } else {
            if in_dm8 {
                match find_char(t, '=') {
                    Some(p) => {
                        let key = lower_seq(trim_spec(t.take(p)));
                        if has_prefix(key, "driver"@) {
                            Some(trim_spec(t.skip(p + 1)))
                        } else {
                            spec_parse_odbcinst(lines, k + 1, in_dm8)
                        }
                    },
                    None => spec_parse_odbcinst(lines, k + 1, in_dm8),
                }
            } else {
                spec_parse_odbcinst(lines, k + 1, in_dm8)
            }
        }
    }
}

/// Finds the DM8 driver library path in odbcinst.ini-style content.
pub fn parse_odbcinst_for_dm8(content: &str) -> (r: Option<String>)
    ensures
        match r {
            Some(p) => spec_parse_odbcinst(split_lines(content@), 0, false) == Some(p@),
            None => spec_parse_odbcinst(split_lines(content@), 0, false) is None,
        },
{
    let v = chars_of(content);
    let lines_exec = crate::text::lines_of(&v);
    let ghost lines = split_lines(content@);
    let n = lines_exec.len();
    let mut in_dm8 = false;
    let mut k: usize = 0;
    while k < n
        invariant
            lines == split_lines(content@),
            lines == lines_exec.deep_view(),
            lines.len() == lines_exec@.len(),
            n == lines.len(),
            k <= n,
            spec_parse_odbcinst(lines, 0, false) == spec_parse_odbcinst(lines, k as int, in_dm8),
        decreases n - k,
    {
        proof {
            assert(lines[k as int] =~= lines_exec@[k as int]@);
        }
        let t = trim_vec(&lines_exec[k]);
        if t.len() > 0 && t[0] == '[' && t[t.len() - 1] == ']' {
            proof {
                assert(t@.last() == t@[t@.len() - 1]);
            }
            let inner = trim_brackets_vec(&t);
            let low = lower_vec(&inner);
            in_dm8 = crate::text::eq_str(&low, "dm8 odbc driver");
        } else {
            proof {
                if t@.len() > 0 {
                    assert(t@.last() == t@[t@.len() - 1]);
                }
            }
            if in_dm8 {
                match find_in(&t, '=') {
                    Some(p) => {
                        let before = subvec(&t, 0, p);
                        proof {
                            assert(t@.subrange(0, p as int) =~= t@.take(p as int));
                        }
                        let key_t = trim_vec(&before);
                        let key = lower_vec(&key_t);
                        if starts_with_lit(&key, "driver") {
                            let after = subvec(&t, p + 1, t.len());
                            proof {
                                assert(t@.subrange(p + 1, t@.len() as int) =~= t@.skip(p + 1));
                            }
                            let value = trim_vec(&after);
                            proof {
                                assert(t@ == trim_spec(lines[k as int]));
                                assert(find_char(t@, '=') == Some(p as int));
                                assert(spec_parse_odbcinst(lines, k as int, in_dm8) == Some(
                                    trim_spec(t@.skip(p + 1)),
                                ));
                            }
                            return Some(string_of(&value));
                        }
                    },
                    None => {},
                }
            }
        }
        k = k + 1;
    }
    None
}

} // verus!
