//! Character-level text utilities shared by the SQL generators: conversions
//! between `String` and `Vec<char>`, ASCII case folding, escaping, joining
//! and splitting.

use vstd::prelude::*;

verus! {

/// ASCII upper-casing of a single character; everything outside `a`..`z`
/// is left unchanged.
pub open spec fn upper_char(c: char) -> char {
    if 'a' <= c && c <= 'z' {
        (((c as u8) - 32) as char)
    } else {
        c
    }
}

/// ASCII upper-casing of a whole character sequence.
pub open spec fn upper_seq(s: Seq<char>) -> Seq<char> {
    s.map_values(|c: char| upper_char(c))
}

/// Case-insensitive equality (ASCII folding on both sides).
pub open spec fn eq_ci(a: Seq<char>, b: Seq<char>) -> bool {
    upper_seq(a) == upper_seq(b)
}

/// Relies on String::push: appends exactly the given character.
#[verifier::external_body]
pub fn push_char(s: &mut String, c: char)
    ensures
        final(s)@ == old(s)@.push(c),
{
    s.push(c);
}

/// The characters of a string slice, as an indexable vector.
pub fn chars_of(s: &str) -> (v: Vec<char>)
    ensures
        v@ == s@,
{
    let n = s.unicode_len();
    let mut v: Vec<char> = Vec::new();
    let mut i: usize = 0;
    while i < n
        invariant
            n == s@.len(),
            i <= n,
            v@ == s@.take(i as int),
        decreases n - i,
    {
        v.push(s.get_char(i));
        proof {
            assert(s@.take(i + 1) =~= s@.take(i as int).push(s@[i as int]));
        }
        i = i + 1;
    }
    proof {
        assert(s@.take(n as int) =~= s@);
    }
    v
}

/// Rebuilds a `String` from a vector of characters.
pub fn string_of(v: &Vec<char>) -> (s: String)
    ensures
        s@ == v@,
{
    let mut s = String::new();
    let mut i: usize = 0;
    while i < v.len()
        invariant
            i <= v@.len(),
            s@ == v@.take(i as int),
        decreases v@.len() - i,
    {
        push_char(&mut s, v[i]);
        proof {
            assert(v@.take(i + 1) =~= v@.take(i as int).push(v@[i as int]));
        }
        i = i + 1;
    }
    proof {
        assert(v@.take(v@.len() as int) =~= v@);
    }
    s
}

/// Exact equality between a character vector and a string slice.
pub fn eq_str(v: &Vec<char>, s: &str) -> (r: bool)
    ensures
        r == (v@ == s@),
{
    let n = s.unicode_len();
    if v.len() != n {
        return false;
    }
    let mut i: usize = 0;
    while i < n
        invariant
            n == s@.len(),
            v@.len() == n,
            i <= n,
            forall|j: int| 0 <= j < i ==> v@[j] == s@[j],
        decreases n - i,
    {
        if v[i] != s.get_char(i) {
            return false;
        }
        i = i + 1;
    }
    proof {
        assert(v@ =~= s@);
    }
    true
}

/// Exec ASCII upper-casing of one character.
pub fn to_upper_char(c: char) -> (r: char)
    ensures
        r == upper_char(c),
{
    if 'a' <= c && c <= 'z' {
        ((c as u8) - 32) as char
    } else {
        c
    }
}

/// Case-insensitive equality between a character vector and a string slice.
pub fn eq_str_ci(v: &Vec<char>, s: &str) -> (r: bool)
    ensures
        r == eq_ci(v@, s@),
{
    let n = s.unicode_len();
    if v.len() != n {
        proof {
            assert(upper_seq(v@).len() == v@.len());
            assert(upper_seq(s@).len() == s@.len());
        }
        return false;
    }
    let mut i: usize = 0;
    while i < n
        invariant
            n == s@.len(),
            v@.len() == n,
            i <= n,
            forall|j: int| 0 <= j < i ==> upper_char(v@[j]) == upper_char(s@[j]),
        decreases n - i,
    {
        if to_upper_char(v[i]) != to_upper_char(s.get_char(i)) {
            proof {
                assert(upper_seq(v@)[i as int] == upper_char(v@[i as int]));
                assert(upper_seq(s@)[i as int] == upper_char(s@[i as int]));
            }
            return false;
        }
        i = i + 1;
    }
    proof {
        assert(upper_seq(v@) =~= upper_seq(s@)) by {
            assert(forall|j: int|
                0 <= j < n ==> upper_seq(v@)[j] == upper_char(v@[j]) && upper_seq(s@)[j]
                    == upper_char(s@[j]));
        }
    }
    true
}

/// ASCII upper-casing of a whole vector.
pub fn upper_vec(v: &Vec<char>) -> (r: Vec<char>)
    ensures
        r@ == upper_seq(v@),
{
    let mut r: Vec<char> = Vec::new();
    let mut i: usize = 0;
    while i < v.len()
        invariant
            i <= v@.len(),
            r@.len() == i,
            forall|j: int| 0 <= j < i ==> r@[j] == upper_char(v@[j]),
        decreases v@.len() - i,
    {
        r.push(to_upper_char(v[i]));
        i = i + 1;
    }
    proof {
        assert(r@ =~= upper_seq(v@));
    }
    r
}

} // verus!

verus! {

/// `p` is a prefix of `s`.
pub open spec fn has_prefix(s: Seq<char>, p: Seq<char>) -> bool {
    p.len() <= s.len() && s.take(p.len() as int) == p
}

/// `p` is a suffix of `s`.
pub open spec fn has_suffix(s: Seq<char>, p: Seq<char>) -> bool {
    p.len() <= s.len() && s.skip((s.len() - p.len()) as int) == p
}

/// `p` occurs somewhere inside `s`.
pub open spec fn has_substring(s: Seq<char>, p: Seq<char>) -> bool {
    exists|i: int| 0 <= i && i + p.len() <= s.len() && #[trigger] s.subrange(i, i + p.len()) == p
}

/// Whether the prefix of `v` starting at position `at` equals `s`.
pub fn matches_at_pub(v: &Vec<char>, at: usize, s: &str) -> (r: bool)
    requires
        at <= v@.len(),
    ensures
        r == (at + s@.len() <= v@.len() && v@.subrange(at as int, at + s@.len()) == s@),
{
    let n = s.unicode_len();
    if n > v.len() - at {
        return false;
    }
    let vlen = v.len();
    let mut i: usize = 0;
    while i < n
        invariant
            n == s@.len(),
            vlen == v@.len(),
            at + n <= vlen,
            i <= n,
            forall|j: int| 0 <= j < i ==> v@[at + j] == s@[j],
        decreases n - i,
    {
        if v[at + i] != s.get_char(i) {
            proof {
                assert(v@.subrange(at as int, at + s@.len())[i as int] == v@[at + i]);
            }
            return false;
        }
        i = i + 1;
    }
    proof {
        assert(v@.subrange(at as int, at + s@.len()) =~= s@);
    }
    true
}

/// Whether `v` starts with the literal `s`.
pub fn starts_with_lit(v: &Vec<char>, s: &str) -> (r: bool)
    ensures
        r == has_prefix(v@, s@),
{
    matches_at_pub(v, 0, s)
}

/// Whether `v` ends with the literal `s`.
pub fn ends_with_lit(v: &Vec<char>, s: &str) -> (r: bool)
    ensures
        r == has_suffix(v@, s@),
{
    let n = s.unicode_len();
    if n > v.len() {
        return false;
    }
    let r = matches_at_pub(v, v.len() - n, s);
    proof {
        assert(v@.subrange((v@.len() - s@.len()) as int, v@.len() - s@.len() + s@.len())
            =~= v@.skip((v@.len() - s@.len()) as int));
    }
    r
}

/// Whether the literal `s` occurs anywhere in `v`.
pub fn contains_lit(v: &Vec<char>, s: &str) -> (r: bool)
    ensures
        r == has_substring(v@, s@),
{
    let n = s.unicode_len();
    if n > v.len() {
        return false;
    }
    if n == 0 {
        proof {
            assert(v@.subrange(0, 0 + s@.len() as int) =~= s@);
        }
        return true;
    }
    let last = v.len() - n;
    let mut i: usize = 0;
    while i <= last
        invariant
            n == s@.len(),
            1 <= n <= v@.len(),
            last == v@.len() - n,
            last < usize::MAX,
            i <= last + 1,
            forall|j: int| 0 <= j < i ==> #[trigger] v@.subrange(j, j + s@.len()) != s@,
        decreases last + 1 - i,
    {
        if matches_at_pub(v, i, s) {
            return true;
        }
        i = i + 1;
    }
    false
}

/// Whether `v` contains the character `c`.
pub fn contains_char(v: &Vec<char>, c: char) -> (r: bool)
    ensures
        r == v@.contains(c),
{
    let mut i: usize = 0;
    while i < v.len()
        invariant
            i <= v@.len(),
            forall|j: int| 0 <= j < i ==> v@[j] != c,
        decreases v@.len() - i,
    {
        if v[i] == c {
            return true;
        }
        i = i + 1;
    }
    false
}

/// How many times `c` occurs in `s`.
pub open spec fn count_char(s: Seq<char>, c: char) -> nat
    decreases s.len(),
{
    if s.len() == 0 {
        0
    } else {
        count_char(s.drop_last(), c) + if s.last() == c {
            1nat
        } else {
            0nat
        }
    }
}

/// Counts the occurrences of `c` in `v`.
pub fn count_char_in(v: &Vec<char>, c: char) -> (n: usize)
    ensures
        n == count_char(v@, c),
{
    let mut n: usize = 0;
    let mut i: usize = 0;
    while i < v.len()
        invariant
            i <= v@.len(),
            n == count_char(v@.take(i as int), c),
            n <= i,
        decreases v@.len() - i,
    {
        proof {
            assert(v@.take(i + 1).drop_last() =~= v@.take(i as int));
            assert(v@.take(i + 1).last() == v@[i as int]);
        }
        if v[i] == c {
            n = n + 1;
        }
        i = i + 1;
    }
    proof {
        assert(v@.take(v@.len() as int) =~= v@);
    }
    n
}

pub open spec fn is_space(c: char) -> bool {
    c == ' ' || c == '\t' || c == '\n' || c == '\r'
}

pub open spec fn is_digit(c: char) -> bool {
    '0' <= c && c <= '9'
}

pub open spec fn is_alpha(c: char) -> bool {
    ('a' <= c && c <= 'z') || ('A' <= c && c <= 'Z')
}

pub open spec fn is_hex_digit(c: char) -> bool {
    is_digit(c) || ('a' <= c && c <= 'f') || ('A' <= c && c <= 'F')
}

pub open spec fn is_word_char(c: char) -> bool {
    is_alpha(c) || is_digit(c) || c == '_'
}

pub fn is_space_char(c: char) -> (r: bool)
    ensures
        r == is_space(c),
{
    c == ' ' || c == '\t' || c == '\n' || c == '\r'
}

pub fn is_digit_char(c: char) -> (r: bool)
    ensures
        r == is_digit(c),
{
    '0' <= c && c <= '9'
}

pub fn is_alpha_char(c: char) -> (r: bool)
    ensures
        r == is_alpha(c),
{
    ('a' <= c && c <= 'z') || ('A' <= c && c <= 'Z')
}

pub fn is_hex_digit_char(c: char) -> (r: bool)
    ensures
        r == is_hex_digit(c),
{
    is_digit_char(c) || ('a' <= c && c <= 'f') || ('A' <= c && c <= 'F')
}

pub fn is_word_char_exec(c: char) -> (r: bool)
    ensures
        r == is_word_char(c),
{
    is_alpha_char(c) || is_digit_char(c) || c == '_'
}

/// `s` without leading whitespace.
pub open spec fn trim_start_spec(s: Seq<char>) -> Seq<char>
    decreases s.len(),
{
    if s.len() > 0 && is_space(s[0]) {
        trim_start_spec(s.drop_first())
    } else {
        s
    }
}

/// `s` without trailing whitespace.
pub open spec fn trim_end_spec(s: Seq<char>) -> Seq<char>
    decreases s.len(),
{
    if s.len() > 0 && is_space(s.last()) {
        trim_end_spec(s.drop_last())
    } else {
        s
    }
}

/// `s` without leading or trailing whitespace.
pub open spec fn trim_spec(s: Seq<char>) -> Seq<char> {
    trim_end_spec(trim_start_spec(s))
}

proof fn lemma_trim_start_skip(s: Seq<char>, i: int)
    requires
        0 <= i <= s.len(),
        forall|j: int| 0 <= j < i ==> is_space(s[j]),
    ensures
        trim_start_spec(s) == trim_start_spec(s.skip(i)),
    decreases i,
{
    if i > 0 {
        assert(is_space(s[0]));
        assert(s.skip(1).skip(i - 1) =~= s.skip(i));
        assert(trim_start_spec(s) == trim_start_spec(s.drop_first()));
        assert(s.drop_first() =~= s.skip(1));
        lemma_trim_start_skip(s.skip(1), i - 1);
    } else {
        assert(s.skip(0) =~= s);
    }
}

proof fn lemma_trim_end_take(s: Seq<char>, i: int)
    requires
        0 <= i <= s.len(),
        forall|j: int| i <= j < s.len() ==> is_space(s[j]),
    ensures
        trim_end_spec(s) == trim_end_spec(s.take(i)),
    decreases s.len() - i,
{
    if i < s.len() {
        assert(is_space(s.last()));
        assert(trim_end_spec(s) == trim_end_spec(s.drop_last()));
        lemma_trim_end_take(s.drop_last(), i);
        assert(s.drop_last().take(i) =~= s.take(i));
    } else {
        assert(s.take(i) =~= s);
    }
}

/// Trims ASCII whitespace from both ends.
pub fn trim_vec(v: &Vec<char>) -> (r: Vec<char>)
    ensures
        r@ == trim_spec(v@),
{
    let mut start: usize = 0;
    while start < v.len() && is_space_char(v[start])
        invariant
            start <= v@.len(),
            forall|j: int| 0 <= j < start ==> is_space(v@[j]),
        decreases v@.len() - start,
    {
        start = start + 1;
    }
    proof {
        lemma_trim_start_skip(v@, start as int);
        if start < v@.len() {
            assert(trim_start_spec(v@.skip(start as int)) == v@.skip(start as int));
        } else {
            assert(v@.skip(start as int) =~= Seq::<char>::empty());
            assert(trim_start_spec(v@.skip(start as int)) =~= v@.skip(start as int));
        }
    }
    let mut end: usize = v.len();
    while end > start && is_space_char(v[end - 1])
        invariant
            start <= end <= v@.len(),
            forall|j: int| end <= j < v@.len() ==> is_space(v@[j]),
        decreases end,
    {
        end = end - 1;
    }
    let ghost tail = v@.skip(start as int);
    proof {
        assert(forall|j: int| end - start <= j < tail.len() ==> is_space(tail[j]));
        lemma_trim_end_take(tail, end - start);
        if end > start {
            assert(!is_space(tail.take(end - start).last()));
            assert(trim_end_spec(tail.take(end - start)) == tail.take(end - start));
        } else {
            assert(tail.take(end - start) =~= Seq::<char>::empty());
            assert(trim_end_spec(tail.take(end - start)) == tail.take(end - start));
        }
    }
    let mut r: Vec<char> = Vec::new();
    let mut i: usize = start;
    while i < end
        invariant
            start <= i <= end <= v@.len(),
            r@.len() == i - start,
            forall|j: int| 0 <= j < i - start ==> r@[j] == v@[start + j],
        decreases end - i,
    {
        r.push(v[i]);
        i = i + 1;
    }
    proof {
        assert(r@ =~= v@.skip(start as int).take(end - start));
    }
    r
}

} // verus!

verus! {

/// `s` with every occurrence of `d` doubled.
pub open spec fn doubled(s: Seq<char>, d: char) -> Seq<char>
    decreases s.len(),
{
    if s.len() == 0 {
        Seq::empty()
    } else {
        doubled(s.drop_last(), d) + if s.last() == d {
            seq![d, d]
        } else {
            seq![s.last()]
        }
    }
}

/// Doubles every occurrence of `d` in `v`.
pub fn double_char_in(v: &Vec<char>, d: char) -> (r: Vec<char>)
    ensures
        r@ == doubled(v@, d),
{
    let mut r: Vec<char> = Vec::new();
    let mut i: usize = 0;
    while i < v.len()
        invariant
            i <= v@.len(),
            r@ == doubled(v@.take(i as int), d),
        decreases v@.len() - i,
    {
        proof {
            assert(v@.take(i + 1).drop_last() =~= v@.take(i as int));
            assert(v@.take(i + 1).last() == v@[i as int]);
        }
        if v[i] == d {
            r.push(d);
            r.push(d);
            proof {
                assert(doubled(v@.take(i + 1), d) =~= doubled(v@.take(i as int), d).push(d).push(
                    d,
                ));
            }
        } else {
            r.push(v[i]);
            proof {
                assert(doubled(v@.take(i + 1), d) =~= doubled(v@.take(i as int), d).push(
                    v@[i as int],
                ));
            }
        }
        i = i + 1;
    }
    proof {
        assert(v@.take(v@.len() as int) =~= v@);
    }
    r
}

/// The parts joined by `sep`, with no leading or trailing separator.
pub open spec fn seq_join(parts: Seq<Seq<char>>, sep: Seq<char>) -> Seq<char>
    decreases parts.len(),
{
    if parts.len() == 0 {
        Seq::empty()
    } else if parts.len() == 1 {
        parts[0]
    } else {
        seq_join(parts.drop_last(), sep) + sep + parts.last()
    }
}

/// Joins the strings in `parts` with the separator `sep`.
pub fn join_strings(parts: &Vec<String>, sep: &str) -> (r: String)
    ensures
        r@ == seq_join(parts.deep_view(), sep@),
{
    let ghost dv = parts.deep_view();
    let mut r = String::new();
    let mut i: usize = 0;
    while i < parts.len()
        invariant
            dv == parts.deep_view(),
            dv.len() == parts@.len(),
            i <= parts@.len(),
            forall|j: int| 0 <= j < dv.len() ==> dv[j] == parts@[j]@,
            r@ == seq_join(dv.take(i as int), sep@),
        decreases parts@.len() - i,
    {
        if i > 0 {
            r.append(sep);
        }
        r.append(parts[i].as_str());
        proof {
            if i == 0 {
                assert(seq_join(dv.take(1), sep@) == dv.take(1)[0]);
            } else {
                assert(dv.take(i + 1).drop_last() =~= dv.take(i as int));
                assert(dv.take(i + 1).last() == dv[i as int]);
            }
        }
        i = i + 1;
    }
    proof {
        assert(dv.take(dv.len() as int) =~= dv);
    }
    r
}

/// Splits `s` at every occurrence of `sep`; the result always has at least
/// one part, and joining the parts with `sep` gives `s` back.
pub open spec fn split_on(s: Seq<char>, sep: char) -> Seq<Seq<char>>
    decreases s.len(),
{
    if s.len() == 0 {
        seq![Seq::<char>::empty()]
    } else if s.last() == sep {
        split_on(s.drop_last(), sep).push(Seq::empty())
    } else {
        let r = split_on(s.drop_last(), sep);
        r.update(r.len() - 1, r.last().push(s.last()))
    }
}

pub proof fn lemma_split_on_len(s: Seq<char>, sep: char)
    ensures
        split_on(s, sep).len() >= 1,
        split_on(s, sep).len() == 1 + count_char(s, sep),
    decreases s.len(),
{
    if s.len() > 0 {
        lemma_split_on_len(s.drop_last(), sep);
    }
}

/// Splits `v` at every occurrence of `sep`.
pub fn split_char(v: &Vec<char>, sep: char) -> (r: Vec<Vec<char>>)
    ensures
        r.deep_view() == split_on(v@, sep),
        r@.len() >= 1,
{
    let mut done: Vec<Vec<char>> = Vec::new();
    let mut cur: Vec<char> = Vec::new();
    let mut i: usize = 0;
    while i < v.len()
        invariant
            i <= v@.len(),
            split_on(v@.take(i as int), sep) =~= done.deep_view().push(cur@),
        decreases v@.len() - i,
    {
        proof {
            assert(v@.take(i + 1).drop_last() =~= v@.take(i as int));
            assert(v@.take(i + 1).last() == v@[i as int]);
        }
        let ghost old_done = done.deep_view();
        let ghost old_cur = cur@;
        if v[i] == sep {
            done.push(cur);
            cur = Vec::new();
            proof {
                assert(done.deep_view() =~~= old_done.push(old_cur));
                assert(split_on(v@.take(i + 1), sep) =~= old_done.push(old_cur).push(
                    Seq::<char>::empty(),
                ));
            }
        } else {
            cur.push(v[i]);
            proof {
                let r = old_done.push(old_cur);
                assert(r.update(r.len() - 1, r.last().push(v@[i as int])) =~= old_done.push(
                    old_cur.push(v@[i as int]),
                ));
                assert(split_on(v@.take(i + 1), sep) =~= old_done.push(old_cur.push(v@[i as int])));
            }
        }
        i = i + 1;
    }
    let ghost final_done = done.deep_view();
    let ghost final_cur = cur@;
    done.push(cur);
    proof {
        assert(v@.take(v@.len() as int) =~= v@);
        assert(done.deep_view() =~~= final_done.push(final_cur));
    }
    done
}

/// Appends all characters of `src` to `dst`.
pub fn push_all(dst: &mut Vec<char>, src: &Vec<char>)
    ensures
        final(dst)@ == old(dst)@ + src@,
{
    let ghost base = dst@;
    let mut i: usize = 0;
    while i < src.len()
        invariant
            i <= src@.len(),
            dst@ == base + src@.take(i as int),
        decreases src@.len() - i,
    {
        dst.push(src[i]);
        proof {
            assert(base + src@.take(i + 1) =~= (base + src@.take(i as int)).push(src@[i as int]));
        }
        i = i + 1;
    }
    proof {
        assert(base + src@.take(src@.len() as int) =~= base + src@);
    }
}

/// Appends the characters of the literal `src` to `dst`.
pub fn push_lit(dst: &mut Vec<char>, src: &str)
    ensures
        final(dst)@ == old(dst)@ + src@,
{
    let ghost base = dst@;
    let n = src.unicode_len();
    let mut i: usize = 0;
    while i < n
        invariant
            n == src@.len(),
            i <= n,
            dst@ == base + src@.take(i as int),
        decreases n - i,
    {
        dst.push(src.get_char(i));
        proof {
            assert(base + src@.take(i + 1) =~= (base + src@.take(i as int)).push(src@[i as int]));
        }
        i = i + 1;
    }
    proof {
        assert(base + src@.take(n as int) =~= base + src@);
    }
}

/// `s` with every occurrence of `pat` replaced by `rep`, scanning left to
/// right without revisiting replaced text.
pub open spec fn replace_seq(s: Seq<char>, pat: Seq<char>, rep: Seq<char>) -> Seq<char>
    decreases s.len(),
{
    if s.len() == 0 {
        s
    } else if pat.len() > 0 && has_prefix(s, pat) {
        rep + replace_seq(s.skip(pat.len() as int), pat, rep)
    } else {
        seq![s[0]] + replace_seq(s.drop_first(), pat, rep)
    }
}

/// Replaces every occurrence of `pat` in `v` by `rep`.
pub fn replace_lit(v: &Vec<char>, pat: &str, rep: &str) -> (r: Vec<char>)
    ensures
        r@ == replace_seq(v@, pat@, rep@),
{
    let plen = pat.unicode_len();
    let repv = chars_of(rep);
    let mut out: Vec<char> = Vec::new();
    let mut i: usize = 0;
    proof {
        assert(v@.skip(0) =~= v@);
    }
    while i < v.len()
        invariant
            plen == pat@.len(),
            repv@ == rep@,
            i <= v@.len(),
            replace_seq(v@, pat@, rep@) == out@ + replace_seq(v@.skip(i as int), pat@, rep@),
        decreases v@.len() - i,
    {
        let ghost rest = v@.skip(i as int);
        if plen > 0 && matches_at_pub(v, i, pat) {
            proof {
                assert(rest.take(pat@.len() as int) =~= v@.subrange(i as int, i + pat@.len()));
                assert(has_prefix(rest, pat@));
                assert(rest.skip(pat@.len() as int) =~= v@.skip(i + plen));
            }
            push_all(&mut out, &repv);
            i = i + plen;
        } else {
            proof {
                if plen > 0 && i + plen <= v@.len() {
                    assert(rest.take(pat@.len() as int) =~= v@.subrange(i as int, i + pat@.len()));
                }
                if plen > 0 && i + plen > v@.len() {
                    assert(!has_prefix(rest, pat@));
                }
                assert(rest[0] == v@[i as int]);
                assert(rest.drop_first() =~= v@.skip(i + 1));
                assert(replace_seq(rest, pat@, rep@) == seq![v@[i as int]] + replace_seq(
                    v@.skip(i + 1),
                    pat@,
                    rep@,
                ));
            }
            let c = v[i];
            out.push(c);
            i = i + 1;
        }
    }
    proof {
        assert(v@.skip(v@.len() as int) =~= Seq::<char>::empty());
        assert(out@ + Seq::<char>::empty() =~= out@);
    }
    out
}

} // verus!

verus! {

/// The decimal digit character for `d` (0..9).
pub open spec fn digit_char(d: int) -> char {
    (((48 + d) as u8) as char)
}

/// Decimal digits of a non-negative integer, most significant first.
pub open spec fn dec_digits(n: int) -> Seq<char>
    decreases n,
{
    if n < 10 {
        seq![digit_char(n)]
    } else {
        dec_digits(n / 10).push(digit_char(n % 10))
    }
}

/// Decimal rendering of an integer, with a leading '-' when negative.
pub open spec fn dec_int(n: int) -> Seq<char> {
    if n < 0 {
        seq!['-'] + dec_digits(-n)
    } else {
        dec_digits(n)
    }
}

/// Relies on the standard Display implementation for i64: decimal digits,
/// with a leading '-' for negative values.
#[verifier::external_body]
pub fn i64_to_string(n: i64) -> (r: String)
    ensures
        r@ == dec_int(n as int),
{
    n.to_string()
}

/// Relies on the standard Display implementation for usize: decimal digits.
#[verifier::external_body]
pub fn usize_to_string(n: usize) -> (r: String)
    ensures
        r@ == dec_int(n as int),
{
    n.to_string()
}

/// Numeric value of a string of decimal digits.
pub open spec fn digits_val(s: Seq<char>) -> int
    decreases s.len(),
{
    if s.len() == 0 {
        0
    } else {
        digits_val(s.drop_last()) * 10 + (s.last() as int - 48)
    }
}

pub open spec fn all_digits(s: Seq<char>) -> bool {
    forall|i: int| 0 <= i < s.len() ==> is_digit(#[trigger] s[i])
}

/// The signed value denoted by `s` (an optional sign, then digits).
pub open spec fn dec_int_val(s: Seq<char>) -> int {
    if s.len() > 0 && s[0] == '-' {
        -digits_val(s.drop_first())
    } else if s.len() > 0 && s[0] == '+' {
        digits_val(s.drop_first())
    } else {
        digits_val(s)
    }
}

/// Whether `s` is a well-formed decimal integer: an optional sign followed
/// by at least one digit, and nothing else.
pub open spec fn is_dec_int(s: Seq<char>) -> bool {
    if s.len() > 0 && (s[0] == '-' || s[0] == '+') {
        s.len() > 1 && all_digits(s.drop_first())
    } else {
        s.len() > 0 && all_digits(s)
    }
}

pub open spec fn parse_i64_spec(s: Seq<char>) -> Option<i64> {
    if is_dec_int(s) && i64::MIN <= dec_int_val(s) <= i64::MAX {
        Some(dec_int_val(s) as i64)
    } else {
        None
    }
}

/// Relies on str::parse::<i64>: accepts an optional sign followed by decimal
/// digits, and rejects empty, malformed or out-of-range input.
#[verifier::external_body]
pub fn parse_i64(s: &str) -> (r: Option<i64>)
    ensures
        r == parse_i64_spec(s@),
{
    s.parse::<i64>().ok()
}

pub open spec fn parse_i32_spec(s: Seq<char>) -> Option<i32> {
    if is_dec_int(s) && i32::MIN <= dec_int_val(s) <= i32::MAX {
        Some(dec_int_val(s) as i32)
    } else {
        None
    }
}

/// Narrows a parsed i64 to the i32 range, matching str::parse::<i32>.
pub fn parse_i32(s: &str) -> (r: Option<i32>)
    ensures
        r == parse_i32_spec(s@),
{
    match parse_i64(s) {
        Some(x) => {
            if i32::MIN as i64 <= x && x <= i32::MAX as i64 {
                Some(x as i32)
            } else {
                None
            }
        },
        None => None,
    }
}

/// One line of text, with a single trailing carriage return removed.
pub open spec fn strip_cr(s: Seq<char>) -> Seq<char> {
    if s.len() > 0 && s.last() == '\r' {
        s.drop_last()
    } else {
        s
    }
}

/// The lines of `s`: split at every newline, with no entry for a trailing
/// newline, and with a trailing carriage return removed from each line.
pub open spec fn split_lines(s: Seq<char>) -> Seq<Seq<char>> {
    if s.len() == 0 {
        Seq::empty()
    } else {
        let p = split_on(s, '\n');
        let q = if p.last().len() == 0 {
            p.drop_last()
        } else {
            p
        };
        q.map_values(|l: Seq<char>| strip_cr(l))
    }
}

/// Splits `v` into its lines.
pub fn lines_of(v: &Vec<char>) -> (r: Vec<Vec<char>>)
    ensures
        r.deep_view() == split_lines(v@),
{
    if v.len() == 0 {
        let r: Vec<Vec<char>> = Vec::new();
        proof {
            assert(r.deep_view() =~= split_lines(v@));
        }
        return r;
    }
    let mut parts = split_char(v, '\n');
    if parts[parts.len() - 1].len() == 0 {
        proof {
            assert(parts.deep_view().last() == parts@.last()@);
        }
        let _ = parts.pop();
    }
    let ghost q = if split_on(v@, '\n').last().len() == 0 {
        split_on(v@, '\n').drop_last()
    } else {
        split_on(v@, '\n')
    };
    proof {
        assert(parts.deep_view() =~~= q);
    }
    let mut r: Vec<Vec<char>> = Vec::new();
    let mut i: usize = 0;
    while i < parts.len()
        invariant
            parts.deep_view() == q,
            q.len() == parts@.len(),
            i <= parts@.len(),
            r@.len() == i,
            forall|j: int| 0 <= j < i ==> #[trigger] r@[j]@ == strip_cr(q[j]),
        decreases parts@.len() - i,
    {
        let mut line: Vec<char> = Vec::new();
        push_all(&mut line, &parts[i]);
        proof {
            assert(parts@[i as int].deep_view() =~= parts@[i as int]@);
            assert(line@ == q[i as int]);
        }
        if line.len() > 0 && line[line.len() - 1] == '\r' {
            let _ = line.pop();
        }
        r.push(line);
        i = i + 1;
    }
    proof {
        assert(r.deep_view() =~~= q.map_values(|l: Seq<char>| strip_cr(l))) by {
            assert(forall|j: int|
                0 <= j < r@.len() ==> #[trigger] r.deep_view()[j] =~= r@[j]@);
        }
    }
    r
}

} // verus!

verus! {

/// Copies out `v[from..to]`.
pub fn subvec(v: &Vec<char>, from: usize, to: usize) -> (r: Vec<char>)
    requires
        from <= to <= v@.len(),
    ensures
        r@ == v@.subrange(from as int, to as int),
{
    let mut r: Vec<char> = Vec::new();
    let mut i: usize = from;
    while i < to
        invariant
            from <= i <= to <= v@.len(),
            r@.len() == i - from,
            forall|j: int| 0 <= j < i - from ==> r@[j] == v@[from + j],
        decreases to - i,
    {
        r.push(v[i]);
        i = i + 1;
    }
    proof {
        assert(r@ =~= v@.subrange(from as int, to as int));
    }
    r
}

} // verus!

verus! {

/// Trims ASCII whitespace from the end only.
pub fn trim_end_vec(v: &Vec<char>) -> (r: Vec<char>)
    ensures
        r@ == trim_end_spec(v@),
{
    let mut end: usize = v.len();
    while end > 0 && is_space_char(v[end - 1])
        invariant
            end <= v@.len(),
            forall|j: int| end <= j < v@.len() ==> is_space(v@[j]),
        decreases end,
    {
        end = end - 1;
    }
    proof {
        lemma_trim_end_take_pub(v@, end as int);
        if end > 0 {
            assert(!is_space(v@.take(end as int).last()));
            assert(trim_end_spec(v@.take(end as int)) == v@.take(end as int));
        } else {
            assert(v@.take(0) =~= Seq::<char>::empty());
            assert(trim_end_spec(v@.take(0)) == v@.take(0));
        }
    }
    subvec(v, 0, end)
}

pub proof fn lemma_trim_end_take_pub(s: Seq<char>, i: int)
    requires
        0 <= i <= s.len(),
        forall|j: int| i <= j < s.len() ==> is_space(s[j]),
    ensures
        trim_end_spec(s) == trim_end_spec(s.take(i)),
    decreases s.len() - i,
{
    if i < s.len() {
        assert(is_space(s.last()));
        assert(trim_end_spec(s) == trim_end_spec(s.drop_last()));
        lemma_trim_end_take_pub(s.drop_last(), i);
        assert(s.drop_last().take(i) =~= s.take(i));
    } else {
        assert(s.take(i) =~= s);
    }
}

} // verus!

verus! {

pub proof fn lemma_trim_start_len(s: Seq<char>)
    ensures
        trim_start_spec(s).len() <= s.len(),
    decreases s.len(),
{
    if s.len() > 0 && is_space(s[0]) {
        lemma_trim_start_len(s.drop_first());
    }
}

pub proof fn lemma_trim_end_len(s: Seq<char>)
    ensures
        trim_end_spec(s).len() <= s.len(),
    decreases s.len(),
{
    if s.len() > 0 && is_space(s.last()) {
        lemma_trim_end_len(s.drop_last());
    }
}

/// Trims ASCII whitespace from the start only.
pub fn trim_start_vec(v: &Vec<char>) -> (r: Vec<char>)
    ensures
        r@ == trim_start_spec(v@),
{
    let mut start: usize = 0;
    while start < v.len() && is_space_char(v[start])
        invariant
            start <= v@.len(),
            forall|j: int| 0 <= j < start ==> is_space(v@[j]),
        decreases v@.len() - start,
    {
        start = start + 1;
    }
    proof {
        lemma_trim_start_skip_pub(v@, start as int);
        if start < v@.len() {
            assert(trim_start_spec(v@.skip(start as int)) == v@.skip(start as int));
        } else {
            assert(v@.skip(start as int) =~= Seq::<char>::empty());
            assert(trim_start_spec(v@.skip(start as int)) =~= v@.skip(start as int));
        }
    }
    let r = subvec(v, start, v.len());
    proof {
        assert(v@.subrange(start as int, v@.len() as int) =~= v@.skip(start as int));
    }
    r
}

pub proof fn lemma_trim_start_skip_pub(s: Seq<char>, i: int)
    requires
        0 <= i <= s.len(),
        forall|j: int| 0 <= j < i ==> is_space(s[j]),
    ensures
        trim_start_spec(s) == trim_start_spec(s.skip(i)),
    decreases i,
{
    if i > 0 {
        assert(is_space(s[0]));
        assert(s.skip(1).skip(i - 1) =~= s.skip(i));
        assert(trim_start_spec(s) == trim_start_spec(s.drop_first()));
        assert(s.drop_first() =~= s.skip(1));
        lemma_trim_start_skip_pub(s.skip(1), i - 1);
    } else {
        assert(s.skip(0) =~= s);
    }
}

} // verus!

verus! {

/// ASCII lower-casing of a single character.
pub open spec fn lower_char(c: char) -> char {
    if 'A' <= c && c <= 'Z' {
        (((c as u8) + 32) as char)
    } else {
        c
    }
}

/// ASCII lower-casing of a whole character sequence.
pub open spec fn lower_seq(s: Seq<char>) -> Seq<char> {
    s.map_values(|c: char| lower_char(c))
}

/// Exec ASCII lower-casing of one character.
pub fn to_lower_char(c: char) -> (r: char)
    ensures
        r == lower_char(c),
{
    if 'A' <= c && c <= 'Z' {
        ((c as u8) + 32) as char
    } else {
        c
    }
}

/// ASCII lower-casing of a whole vector.
pub fn lower_vec(v: &Vec<char>) -> (r: Vec<char>)
    ensures
        r@ == lower_seq(v@),
{
    let mut r: Vec<char> = Vec::new();
    let mut i: usize = 0;
    while i < v.len()
        invariant
            i <= v@.len(),
            r@.len() == i,
            forall|j: int| 0 <= j < i ==> r@[j] == lower_char(v@[j]),
        decreases v@.len() - i,
    {
        r.push(to_lower_char(v[i]));
        i = i + 1;
    }
    proof {
        assert(r@ =~= lower_seq(v@));
    }
    r
}

pub open spec fn is_bracket(c: char) -> bool {
    c == '[' || c == ']'
}

pub open spec fn trim_brackets_start(s: Seq<char>) -> Seq<char>
    decreases s.len(),
{
    if s.len() > 0 && is_bracket(s[0]) {
        trim_brackets_start(s.drop_first())
    } else {
        s
    }
}

pub open spec fn trim_brackets_end(s: Seq<char>) -> Seq<char>
    decreases s.len(),
{
    if s.len() > 0 && is_bracket(s.last()) {
        trim_brackets_end(s.drop_last())
    } else {
        s
    }
}

/// `s` with all leading and trailing square brackets removed.
pub open spec fn trim_brackets(s: Seq<char>) -> Seq<char> {
    trim_brackets_end(trim_brackets_start(s))
}

/// Removes all leading and trailing square brackets.
pub fn trim_brackets_vec(v: &Vec<char>) -> (r: Vec<char>)
    ensures
        r@ == trim_brackets(v@),
{
    let mut start: usize = 0;
    while start < v.len() && (v[start] == '[' || v[start] == ']')
        invariant
            start <= v@.len(),
            forall|j: int| 0 <= j < start ==> is_bracket(v@[j]),
        decreases v@.len() - start,
    {
        start = start + 1;
    }
    proof {
        lemma_trim_brackets_start_skip(v@, start as int);
        if start < v@.len() {
            assert(trim_brackets_start(v@.skip(start as int)) == v@.skip(start as int));
        } else {
            assert(v@.skip(start as int) =~= Seq::<char>::empty());
            assert(trim_brackets_start(v@.skip(start as int)) =~= v@.skip(start as int));
        }
    }
    let mut end: usize = v.len();
    while end > start && (v[end - 1] == '[' || v[end - 1] == ']')
        invariant
            start <= end <= v@.len(),
            forall|j: int| end <= j < v@.len() ==> is_bracket(v@[j]),
        decreases end,
    {
        end = end - 1;
    }
    let ghost tail = v@.skip(start as int);
    proof {
        assert(forall|j: int| end - start <= j < tail.len() ==> is_bracket(tail[j]));
        lemma_trim_brackets_end_take(tail, end - start);
        if end > start {
            assert(!is_bracket(tail.take(end - start).last()));
            assert(trim_brackets_end(tail.take(end - start)) == tail.take(end - start));
        } else {
            assert(tail.take(end - start) =~= Seq::<char>::empty());
            assert(trim_brackets_end(tail.take(end - start)) == tail.take(end - start));
        }
    }
    let r = subvec(v, start, end);
    proof {
        assert(r@ =~= v@.skip(start as int).take(end - start));
    }
    r
}

proof fn lemma_trim_brackets_start_skip(s: Seq<char>, i: int)
    requires
        0 <= i <= s.len(),
        forall|j: int| 0 <= j < i ==> is_bracket(s[j]),
    ensures
        trim_brackets_start(s) == trim_brackets_start(s.skip(i)),
    decreases i,
{
    if i > 0 {
        assert(is_bracket(s[0]));
        assert(s.skip(1).skip(i - 1) =~= s.skip(i));
        assert(s.drop_first() =~= s.skip(1));
        lemma_trim_brackets_start_skip(s.skip(1), i - 1);
    } else {
        assert(s.skip(0) =~= s);
    }
}

proof fn lemma_trim_brackets_end_take(s: Seq<char>, i: int)
    requires
        0 <= i <= s.len(),
        forall|j: int| i <= j < s.len() ==> is_bracket(s[j]),
    ensures
        trim_brackets_end(s) == trim_brackets_end(s.take(i)),
    decreases s.len() - i,
{
    if i < s.len() {
        assert(is_bracket(s.last()));
        lemma_trim_brackets_end_take(s.drop_last(), i);
        assert(s.drop_last().take(i) =~= s.take(i));
    } else {
        assert(s.take(i) =~= s);
    }
}

} // verus!
