//! Line-oriented parser for the structured-text dialect that the release
//! manifests and the history ledger are written in.
//!
//! The dialect covers what those documents use: comments and blank lines,
//! table headers `[a.b.c]` and `[[a.b.c]]` with bare or quoted keys, and
//! `key = value` lines whose value is a basic string without escape
//! sequences, a boolean, or a single-line array of basic strings.  Any other
//! construct is a hard parse failure.
//!
//! The grammar is stated once as spec functions over `Seq<char>`; each
//! executable function is proved to return exactly what the grammar denotes.

use vstd::prelude::*;
use crate::strutil::str_eq;
use crate::strutil::views_of;

verus! {

/// What one line of a document denotes.
pub enum SpecLine {
    /// Empty, whitespace only, or a comment.
    Blank,
    /// `[a.b]` or `[[a.b]]`: the path of the table the following lines belong to.
    Header(Seq<Seq<char>>),
    /// `key = "value"`.
    StrKV(Seq<char>, Seq<char>),
    /// `key = true` or `key = false`.
    BoolKV(Seq<char>, bool),
    /// `key = ["a", "b"]`.
    ArrKV(Seq<char>, Seq<Seq<char>>),
    /// Not a line of the dialect.
    Bad,
}

/// Executable form of one parsed line; `Bad` lines are reported as errors
/// instead.
pub enum TomlLine {
    Blank,
    Header(Vec<String>),
    StrKV(String, String),
    BoolKV(String, bool),
    ArrKV(String, Vec<String>),
}

pub open spec fn line_view(l: TomlLine) -> SpecLine {
    match l {
        TomlLine::Blank => SpecLine::Blank,
        TomlLine::Header(p) => SpecLine::Header(views_of(p@)),
        TomlLine::StrKV(k, v) => SpecLine::StrKV(k@, v@),
        TomlLine::BoolKV(k, b) => SpecLine::BoolKV(k@, b),
        TomlLine::ArrKV(k, xs) => SpecLine::ArrKV(k@, views_of(xs@)),
    }
}

pub open spec fn is_ws(c: char) -> bool {
    c == ' ' || c == '\t' || c == '\r'
}

/// Bare keys: ASCII letters, digits, `-` and `_`.
pub open spec fn is_bare_char(c: char) -> bool {
    ('a' <= c && c <= 'z') || ('A' <= c && c <= 'Z') || ('0' <= c && c <= '9') || c == '-' || c
        == '_'
}

/// First index at or after `i` holding a non-whitespace character, else the length.
pub open spec fn ws_end(s: Seq<char>, i: int) -> int
    decreases s.len() - i when 0 <= i <= s.len()
{
    if i >= s.len() {
        s.len() as int
    } else if is_ws(s[i]) {
        ws_end(s, i + 1)
    } else {
        i
    }
}

pub proof fn lemma_ws_end_bounds(s: Seq<char>, i: int)
    requires
        0 <= i <= s.len(),
    ensures
        i <= ws_end(s, i) <= s.len(),
    decreases s.len() - i,
{
    if i < s.len() && is_ws(s[i]) {
        lemma_ws_end_bounds(s, i + 1);
    }
}

/// First index at or after `i` holding a non-bare-key character, else the length.
pub open spec fn bare_end(s: Seq<char>, i: int) -> int
    decreases s.len() - i when 0 <= i <= s.len()
{
    if i >= s.len() {
        s.len() as int
    } else if is_bare_char(s[i]) {
        bare_end(s, i + 1)
    } else {
        i
    }
}

pub proof fn lemma_bare_end_bounds(s: Seq<char>, i: int)
    requires
        0 <= i <= s.len(),
    ensures
        i <= bare_end(s, i) <= s.len(),
    decreases s.len() - i,
{
    if i < s.len() && is_bare_char(s[i]) {
        lemma_bare_end_bounds(s, i + 1);
    }
}

/// First index at or after `i` holding `c`, else the length.
pub open spec fn find_char(s: Seq<char>, c: char, i: int) -> int
    decreases s.len() - i when 0 <= i <= s.len()
{
    if i >= s.len() {
        s.len() as int
    } else if s[i] == c {
        i
    } else {
        find_char(s, c, i + 1)
    }
}

pub proof fn lemma_find_char_bounds(s: Seq<char>, c: char, i: int)
    requires
        0 <= i <= s.len(),
    ensures
        i <= find_char(s, c, i) <= s.len(),
    decreases s.len() - i,
{
    if i < s.len() && s[i] != c {
        lemma_find_char_bounds(s, c, i + 1);
    }
}

/// The first occurrence decides `find_char`.
pub proof fn lemma_find_char_value(s: Seq<char>, c: char, i: int, m: int)
    requires
        0 <= i <= m < s.len(),
        s[m] == c,
        forall|k: int| i <= k < m ==> s[k] != c,
    ensures
        find_char(s, c, i) == m,
    decreases m - i,
{
    if i < m {
        lemma_find_char_value(s, c, i + 1, m);
    }
}

/// `find_char` cannot answer before the first occurrence.
pub proof fn lemma_find_char_lower(s: Seq<char>, c: char, i: int, m: int)
    requires
        0 <= i <= m <= s.len(),
        forall|k: int| i <= k < m ==> s[k] != c,
    ensures
        find_char(s, c, i) >= m,
    decreases m - i,
{
    if i < m {
        lemma_find_char_lower(s, c, i + 1, m);
    } else {
        lemma_find_char_bounds(s, c, i);
    }
}

/// The run of whitespace decides `ws_end`.
pub proof fn lemma_ws_end_value(s: Seq<char>, i: int, m: int)
    requires
        0 <= i <= m <= s.len(),
        forall|k: int| i <= k < m ==> is_ws(s[k]),
        m < s.len() ==> !is_ws(s[m]),
    ensures
        ws_end(s, i) == m,
    decreases m - i,
{
    if i < m {
        lemma_ws_end_value(s, i + 1, m);
    }
}

/// The run of bare-key characters decides `bare_end`.
pub proof fn lemma_bare_end_value(s: Seq<char>, i: int, m: int)
    requires
        0 <= i <= m <= s.len(),
        forall|k: int| i <= k < m ==> is_bare_char(s[k]),
        m < s.len() ==> !is_bare_char(s[m]),
    ensures
        bare_end(s, i) == m,
    decreases m - i,
{
    if i < m {
        lemma_bare_end_value(s, i + 1, m);
    }
}

/// A basic string starting with the quote at `i`: its contents and the index
/// one past the closing quote.  Escape sequences are outside the dialect: a
/// backslash before the closing quote rejects the string.
pub open spec fn spec_parse_string(s: Seq<char>, i: int) -> Option<(Seq<char>, int)>
    recommends
        0 <= i < s.len(),
{
    let j = find_char(s, '"', i + 1);
    let b = find_char(s, '\\', i + 1);
    if j >= s.len() {
        None
    } else if b < j {
        None
    } else {
        Some((s.subrange(i + 1, j), j + 1))
    }
}

pub proof fn lemma_parse_string_bounds(s: Seq<char>, i: int)
    requires
        0 <= i < s.len(),
        spec_parse_string(s, i) is Some,
    ensures
        i + 2 <= (spec_parse_string(s, i)->Some_0).1 <= s.len(),
{
    lemma_find_char_bounds(s, '"', i + 1);
}

/// A quoted string whose contents hold no quote or backslash parses to
/// exactly those contents.
pub proof fn lemma_parse_string_at(s: Seq<char>, i: int, t: Seq<char>)
    requires
        0 <= i,
        i + t.len() + 2 <= s.len(),
        s[i] == '"',
        s[i + 1 + t.len()] == '"',
        forall|k: int| 0 <= k < t.len() ==> s[i + 1 + k] == t[k],
        forall|k: int| 0 <= k < t.len() ==> t[k] != '"' && t[k] != '\\',
    ensures
        spec_parse_string(s, i) == Some((t, i + t.len() + 2)),
{
    let j = i + 1 + t.len();
    assert forall|k2: int| i + 1 <= k2 < j implies s[k2] != '"' && s[k2] != '\\' by {
        assert(s[i + 1 + (k2 - i - 1)] == t[k2 - i - 1]);
    }
    lemma_find_char_value(s, '"', i + 1, j);
    lemma_find_char_lower(s, '\\', i + 1, j);
    assert(s.subrange(i + 1, j) =~= t);
}

/// A key at `i`: quoted or a nonempty bare run.
pub open spec fn spec_parse_key(s: Seq<char>, i: int) -> Option<(Seq<char>, int)>
    recommends
        0 <= i <= s.len(),
{
    if i < s.len() && s[i] == '"' {
        spec_parse_string(s, i)
    } else {
        let j = bare_end(s, i);
        if j > i {
            Some((s.subrange(i, j), j))
        } else {
            None
        }
    }
}

pub proof fn lemma_parse_key_bounds(s: Seq<char>, i: int)
    requires
        0 <= i <= s.len(),
        spec_parse_key(s, i) is Some,
    ensures
        i < (spec_parse_key(s, i)->Some_0).1 <= s.len(),
{
    if i < s.len() && s[i] == '"' {
        lemma_parse_string_bounds(s, i);
    } else {
        lemma_bare_end_bounds(s, i);
    }
}

/// A dotted key path starting at `i` (whitespace allowed around the dots):
/// the keys and the index after the path and its trailing whitespace.
pub open spec fn spec_parse_dotted(s: Seq<char>, i: int) -> Option<(Seq<Seq<char>>, int)>
    decreases s.len() - i when 0 <= i <= s.len() via spec_parse_dotted_dec
{
    let i1 = ws_end(s, i);
    match spec_parse_key(s, i1) {
        None => None,
        Some((k, j)) => {
            let w = ws_end(s, j);
            if w < s.len() && s[w] == '.' {
                match spec_parse_dotted(s, w + 1) {
                    None => None,
                    Some((rest, e)) => Some((seq![k] + rest, e)),
                }
            } else {
                Some((seq![k], w))
            }
        },
    }
}

#[via_fn]
proof fn spec_parse_dotted_dec(s: Seq<char>, i: int) {
    lemma_ws_end_bounds(s, i);
    let i1 = ws_end(s, i);
    if spec_parse_key(s, i1) is Some {
        lemma_parse_key_bounds(s, i1);
        let j = (spec_parse_key(s, i1)->Some_0).1;
        lemma_ws_end_bounds(s, j);
    }
}

/// A single-line array of basic strings, starting just after its `[`:
/// the elements and the index one past the closing `]`.  A trailing comma
/// before the `]` is accepted.
pub open spec fn spec_parse_str_array(s: Seq<char>, i: int) -> Option<(Seq<Seq<char>>, int)>
    decreases s.len() - i when 0 <= i <= s.len() via spec_parse_str_array_dec
{
    let w = ws_end(s, i);
    if w < s.len() && s[w] == ']' {
        Some((seq![], w + 1))
    } else if w < s.len() && s[w] == '"' {
        match spec_parse_string(s, w) {
            None => None,
            Some((x, j)) => {
                let w2 = ws_end(s, j);
                if w2 < s.len() && s[w2] == ',' {
                    match spec_parse_str_array(s, w2 + 1) {
                        None => None,
                        Some((rest, e)) => Some((seq![x] + rest, e)),
                    }
                } else if w2 < s.len() && s[w2] == ']' {
                    Some((seq![x], w2 + 1))
                } else {
                    None
                }
            },
        }
    } else {
        None
    }
}

#[via_fn]
proof fn spec_parse_str_array_dec(s: Seq<char>, i: int) {
    lemma_ws_end_bounds(s, i);
    let w = ws_end(s, i);
    if w < s.len() && s[w] == '"' && spec_parse_string(s, w) is Some {
        lemma_parse_string_bounds(s, w);
        let j = (spec_parse_string(s, w)->Some_0).1;
        lemma_ws_end_bounds(s, j);
    }
}

/// Only whitespace, possibly followed by a comment, remains at `i`.
pub open spec fn line_end_ok(s: Seq<char>, i: int) -> bool
    recommends
        0 <= i <= s.len(),
{
    let w = ws_end(s, i);
    w >= s.len() || s[w] == '#'
}

/// What one line denotes under the dialect.
pub open spec fn spec_parse_line(s: Seq<char>) -> SpecLine {
    let a = ws_end(s, 0);
    if a >= s.len() {
        SpecLine::Blank
    } else if s[a] == '#' {
        SpecLine::Blank
    } else if s[a] == '[' {
        let dbl = a + 1 < s.len() && s[a + 1] == '[';
        let st = if dbl {
            a + 2
        } else {
            a + 1
        };
        match spec_parse_dotted(s, st) {
            None => SpecLine::Bad,
            Some((path, e)) => {
                if dbl {
                    if e + 1 < s.len() && s[e] == ']' && s[e + 1] == ']' && line_end_ok(s, e + 2) {
                        SpecLine::Header(path)
                    } else {
                        SpecLine::Bad
                    }
                } else {
                    if e < s.len() && s[e] == ']' && line_end_ok(s, e + 1) {
                        SpecLine::Header(path)
                    } else {
                        SpecLine::Bad
                    }
                }
            },
        }
    } else {
        match spec_parse_key(s, a) {
            None => SpecLine::Bad,
            Some((k, j)) => {
                let w = ws_end(s, j);
                if w < s.len() && s[w] == '=' {
                    let v = ws_end(s, w + 1);
                    if v < s.len() && s[v] == '"' {
                        match spec_parse_string(s, v) {
                            None => SpecLine::Bad,
                            Some((t, e)) => {
                                if line_end_ok(s, e) {
                                    SpecLine::StrKV(k, t)
                                } else {
                                    SpecLine::Bad
                                }
                            },
                        }
                    } else if v + 4 <= s.len() && s.subrange(v, v + 4) == "true"@ && line_end_ok(
                        s,
                        v + 4,
                    ) {
                        SpecLine::BoolKV(k, true)
                    } else if v + 5 <= s.len() && s.subrange(v, v + 5) == "false"@ && line_end_ok(
                        s,
                        v + 5,
                    ) {
                        SpecLine::BoolKV(k, false)
                    } else if v < s.len() && s[v] == '[' {
                        match spec_parse_str_array(s, v + 1) {
                            None => SpecLine::Bad,
                            Some((xs, e)) => {
                                if line_end_ok(s, e) {
                                    SpecLine::ArrKV(k, xs)
                                } else {
                                    SpecLine::Bad
                                }
                            },
                        }
                    } else {
                        SpecLine::Bad
                    }
                } else {
                    SpecLine::Bad
                }
            },
        }
    }
}

/// The lines of a document, split on `'\n'`, from position `p` on; a final
/// line without a newline counts, a trailing newline adds no empty line.
pub open spec fn spec_lines_from(s: Seq<char>, p: int) -> Seq<Seq<char>>
    decreases s.len() - p when 0 <= p <= s.len() via spec_lines_from_dec
{
    if p >= s.len() {
        seq![]
    } else {
        let j = find_char(s, '\n', p);
        seq![s.subrange(p, j)] + spec_lines_from(
            s,
            if j < s.len() {
                j + 1
            } else {
                j
            },
        )
    }
}

#[via_fn]
proof fn spec_lines_from_dec(s: Seq<char>, p: int) {
    if p < s.len() {
        lemma_find_char_bounds(s, '\n', p);
    }
}

pub open spec fn spec_lines(s: Seq<char>) -> Seq<Seq<char>> {
    spec_lines_from(s, 0)
}

/// What each line of a document denotes.
pub open spec fn spec_doc(s: Seq<char>) -> Seq<SpecLine> {
    spec_lines(s).map_values(|t: Seq<char>| spec_parse_line(t))
}

fn ws_end_exec(s: &str, i: usize) -> (r: usize)
    requires
        i <= s@.len(),
    ensures
        r == ws_end(s@, i as int),
        i <= r <= s@.len(),
    decreases s@.len() - i,
{
    let n = s.unicode_len();
    if i == n {
        i
    } else {
        let c = s.get_char(i);
        if c == ' ' || c == '\t' || c == '\r' {
            ws_end_exec(s, i + 1)
        } else {
            i
        }
    }
}

fn bare_end_exec(s: &str, i: usize) -> (r: usize)
    requires
        i <= s@.len(),
    ensures
        r == bare_end(s@, i as int),
        i <= r <= s@.len(),
    decreases s@.len() - i,
{
    let n = s.unicode_len();
    if i == n {
        i
    } else {
        let c = s.get_char(i);
        if ('a' <= c && c <= 'z') || ('A' <= c && c <= 'Z') || ('0' <= c && c <= '9') || c == '-'
            || c == '_' {
            bare_end_exec(s, i + 1)
        } else {
            i
        }
    }
}

fn find_char_exec(s: &str, c: char, i: usize) -> (r: usize)
    requires
        i <= s@.len(),
    ensures
        r == find_char(s@, c, i as int),
        i <= r <= s@.len(),
    decreases s@.len() - i,
{
    let n = s.unicode_len();
    if i == n {
        i
    } else if s.get_char(i) == c {
        i
    } else {
        find_char_exec(s, c, i + 1)
    }
}

fn parse_string_exec(s: &str, i: usize) -> (r: Option<(String, usize)>)
    requires
        i < s@.len(),
    ensures
        match r {
            Some(pr) => spec_parse_string(s@, i as int) == Some((pr.0@, pr.1 as int)) && pr.1
                <= s@.len(),
            None => spec_parse_string(s@, i as int) is None,
        },
{
    let n = s.unicode_len();
    let j = find_char_exec(s, '"', i + 1);
    let b = find_char_exec(s, '\\', i + 1);
    if j == n {
        None
    } else if b < j {
        None
    } else {
        let t = s.substring_char(i + 1, j).to_owned();
        Some((t, j + 1))
    }
}

fn parse_key_exec(s: &str, i: usize) -> (r: Option<(String, usize)>)
    requires
        i <= s@.len(),
    ensures
        match r {
            Some(pr) => spec_parse_key(s@, i as int) == Some((pr.0@, pr.1 as int)) && i < pr.1
                <= s@.len(),
            None => spec_parse_key(s@, i as int) is None,
        },
{
    let n = s.unicode_len();
    if i < n && s.get_char(i) == '"' {
        match parse_string_exec(s, i) {
            Some(pr) => {
                proof {
                    lemma_parse_string_bounds(s@, i as int);
                }
                Some(pr)
            },
            None => None,
        }
    } else {
        let j = bare_end_exec(s, i);
        if j > i {
            Some((s.substring_char(i, j).to_owned(), j))
        } else {
            None
        }
    }
}

fn parse_dotted_exec(s: &str, i: usize) -> (r: Option<(Vec<String>, usize)>)
    requires
        i <= s@.len(),
    ensures
        match r {
            Some(pr) => spec_parse_dotted(s@, i as int) == Some((views_of(pr.0@), pr.1 as int))
                && pr.1 <= s@.len(),
            None => spec_parse_dotted(s@, i as int) is None,
        },
    decreases s@.len() - i,
{
    let n = s.unicode_len();
    let i1 = ws_end_exec(s, i);
    match parse_key_exec(s, i1) {
        None => None,
        Some((k, j)) => {
            let ghost kv: Seq<char> = k@;
            let w = ws_end_exec(s, j);
            if w < n && s.get_char(w) == '.' {
                match parse_dotted_exec(s, w + 1) {
                    None => None,
                    Some((rest, e)) => {
                        let mut p: Vec<String> = Vec::new();
                        p.push(k);
                        let mut idx: usize = 0;
                        while idx < rest.len()
                            invariant
                                idx <= rest@.len(),
                                p@.len() == idx + 1,
                                views_of(p@) =~= seq![kv] + views_of(rest@).take(idx as int),
                            decreases rest@.len() - idx,
                        {
                            p.push(rest[idx].clone());
                            proof {
                                assert(views_of(rest@)[idx as int] == rest@[idx as int]@);
                                assert(views_of(rest@).take(idx + 1) =~= views_of(rest@).take(
                                    idx as int,
                                ).push(rest@[idx as int]@));
                                assert(views_of(p@) =~= (seq![kv] + views_of(rest@).take(
                                    idx as int,
                                )).push(rest@[idx as int]@));
                                assert(views_of(p@) =~= seq![kv] + views_of(rest@).take(idx + 1));
                            }
                            idx += 1;
                        }
                        proof {
                            assert(views_of(rest@).take(rest@.len() as int) =~= views_of(rest@));
                            assert(views_of(p@) =~= seq![kv] + views_of(rest@));
                        }
                        Some((p, e))
                    },
                }
            } else {
                let mut p: Vec<String> = Vec::new();
                p.push(k);
                proof {
                    assert(views_of(p@) =~= seq![kv]);
                }
                Some((p, w))
            }
        },
    }
}

fn parse_str_array_exec(s: &str, i: usize) -> (r: Option<(Vec<String>, usize)>)
    requires
        i <= s@.len(),
    ensures
        match r {
            Some(pr) => spec_parse_str_array(s@, i as int) == Some((views_of(pr.0@), pr.1 as int))
                && pr.1 <= s@.len(),
            None => spec_parse_str_array(s@, i as int) is None,
        },
    decreases s@.len() - i,
{
    let n = s.unicode_len();
    let w = ws_end_exec(s, i);
    if w < n && s.get_char(w) == ']' {
        let xs: Vec<String> = Vec::new();
        proof {
            assert(views_of(xs@) =~= Seq::<Seq<char>>::empty());
        }
        Some((xs, w + 1))
    } else if w < n && s.get_char(w) == '"' {
        match parse_string_exec(s, w) {
            None => None,
            Some((x, j)) => {
                proof {
                    lemma_parse_string_bounds(s@, w as int);
                }
                let ghost xv: Seq<char> = x@;
                let w2 = ws_end_exec(s, j);
                if w2 < n && s.get_char(w2) == ',' {
                    match parse_str_array_exec(s, w2 + 1) {
                        None => None,
                        Some((rest, e)) => {
                            let mut xs: Vec<String> = Vec::new();
                            xs.push(x);
                            let mut idx: usize = 0;
                            while idx < rest.len()
                                invariant
                                    idx <= rest@.len(),
                                    xs@.len() == idx + 1,
                                    views_of(xs@) =~= seq![xv] + views_of(rest@).take(idx as int),
                                decreases rest@.len() - idx,
                            {
                                xs.push(rest[idx].clone());
                                proof {
                                    assert(views_of(rest@)[idx as int] == rest@[idx as int]@);
                                    assert(views_of(rest@).take(idx + 1) =~= views_of(rest@).take(
                                        idx as int,
                                    ).push(rest@[idx as int]@));
                                    assert(views_of(xs@) =~= (seq![xv] + views_of(rest@).take(
                                        idx as int,
                                    )).push(rest@[idx as int]@));
                                    assert(views_of(xs@) =~= seq![xv] + views_of(rest@).take(
                                        idx + 1,
                                    ));
                                }
                                idx += 1;
                            }
                            proof {
                                assert(views_of(rest@).take(rest@.len() as int) =~= views_of(
                                    rest@,
                                ));
                                assert(views_of(xs@) =~= seq![xv] + views_of(rest@));
                            }
                            Some((xs, e))
                        },
                    }
                } else if w2 < n && s.get_char(w2) == ']' {
                    let mut xs: Vec<String> = Vec::new();
                    xs.push(x);
                    proof {
                        assert(views_of(xs@) =~= seq![xv]);
                    }
                    Some((xs, w2 + 1))
                } else {
                    None
                }
            },
        }
    } else {
        None
    }
}

fn line_end_ok_exec(s: &str, i: usize) -> (r: bool)
    requires
        i <= s@.len(),
    ensures
        r == line_end_ok(s@, i as int),
{
    let n = s.unicode_len();
    let w = ws_end_exec(s, i);
    w == n || s.get_char(w) == '#'
}

/// `s@.subrange(i, i + lit@.len()) == lit@`, for `i + lit@.len() <= s@.len()`.
fn str_range_eq(s: &str, i: usize, lit: &str) -> (r: bool)
    requires
        i + lit@.len() <= s@.len(),
    ensures
        r == (s@.subrange(i as int, i + lit@.len()) == lit@),
{
    let n = s.unicode_len();
    let m = lit.unicode_len();
    let piece = s.substring_char(i, i + m);
    str_eq(piece, lit)
}

/// Parse one line; `None` reports a line outside the dialect.
pub fn parse_line_exec(s: &str) -> (r: Option<TomlLine>)
    ensures
        match r {
            Some(l) => line_view(l) == spec_parse_line(s@),
            None => spec_parse_line(s@) == SpecLine::Bad,
        },
{
    let n = s.unicode_len();
    let a = ws_end_exec(s, 0);
    if a == n {
        Some(TomlLine::Blank)
    } else if s.get_char(a) == '#' {
        Some(TomlLine::Blank)
    } else if s.get_char(a) == '[' {
        let dbl = a + 1 < n && s.get_char(a + 1) == '[';
        let st = if dbl {
            a + 2
        } else {
            a + 1
        };
        match parse_dotted_exec(s, st) {
            None => None,
            Some((path, e)) => {
                if dbl {
                    if e < n && e + 1 < n && s.get_char(e) == ']' && s.get_char(e + 1) == ']'
                        && line_end_ok_exec(s, e + 2) {
                        Some(TomlLine::Header(path))
                    } else {
                        None
                    }
                } else {
                    if e < n && s.get_char(e) == ']' && line_end_ok_exec(s, e + 1) {
                        Some(TomlLine::Header(path))
                    } else {
                        None
                    }
                }
            },
        }
    } else {
        match parse_key_exec(s, a) {
            None => None,
            Some((k, j)) => {
                let w = ws_end_exec(s, j);
                if w < n && s.get_char(w) == '=' {
                    let v = ws_end_exec(s, w + 1);
                    proof {
                        reveal_strlit("true");
                        reveal_strlit("false");
                    }
                    if v < n && s.get_char(v) == '"' {
                        match parse_string_exec(s, v) {
                            None => None,
                            Some((t, e)) => {
                                if line_end_ok_exec(s, e) {
                                    Some(TomlLine::StrKV(k, t))
                                } else {
                                    None
                                }
                            },
                        }
                    } else if n - v >= 4 && str_range_eq(s, v, "true") && line_end_ok_exec(
                        s,
                        v + 4,
                    ) {
                        Some(TomlLine::BoolKV(k, true))
                    } else if n - v >= 5 && str_range_eq(s, v, "false") && line_end_ok_exec(
                        s,
                        v + 5,
                    ) {
                        Some(TomlLine::BoolKV(k, false))
                    } else if v < n && s.get_char(v) == '[' {
                        match parse_str_array_exec(s, v + 1) {
                            None => None,
                            Some((xs, e)) => {
                                if line_end_ok_exec(s, e) {
                                    Some(TomlLine::ArrKV(k, xs))
                                } else {
                                    None
                                }
                            },
                        }
                    } else {
                        None
                    }
                } else {
                    None
                }
            },
        }
    }
}

/// Parse a whole document into its lines; `None` reports that some line is
/// outside the dialect.
pub fn parse_doc(s: &str) -> (r: Option<Vec<TomlLine>>)
    ensures
        match r {
            Some(v) => v@.map_values(|l: TomlLine| line_view(l)) =~= spec_doc(s@),
            None => exists|i: int| 0 <= i < spec_doc(s@).len() && spec_doc(s@)[i] == SpecLine::Bad,
        },
{
    let n = s.unicode_len();
    let mut p: usize = 0;
    let mut out: Vec<TomlLine> = Vec::new();
    while p < n
        invariant
            p <= n,
            n == s@.len(),
            out@.len() <= spec_lines(s@).len(),
            spec_lines(s@) =~= spec_lines(s@).take(out@.len() as int) + spec_lines_from(
                s@,
                p as int,
            ),
            forall|i: int|
                0 <= i < out@.len() ==> #[trigger] line_view(out@[i]) == spec_parse_line(
                    spec_lines(s@)[i],
                ),
        decreases n - p,
    {
        let ghost k = out@.len() as int;
        let j = find_char_exec(s, '\n', p);
        let ghost nxt: int = if j < n {
            j + 1
        } else {
            j as int
        };
        let line = s.substring_char(p, j);
        proof {
            assert(spec_lines_from(s@, p as int) =~= seq![s@.subrange(p as int, j as int)]
                + spec_lines_from(s@, nxt));
            assert(spec_lines(s@)[k] == s@.subrange(p as int, j as int)) by {
                assert(spec_lines(s@)[k] == (spec_lines(s@).take(k) + spec_lines_from(
                    s@,
                    p as int,
                ))[k]);
                assert(spec_lines_from(s@, p as int)[0] == s@.subrange(p as int, j as int));
            }
        }
        match parse_line_exec(line) {
            None => {
                proof {
                    assert(spec_doc(s@)[k] == SpecLine::Bad);
                }
                return None;
            },
            Some(l) => {
                out.push(l);
            },
        }
        proof {
            assert(spec_lines(s@).take(k + 1) =~= spec_lines(s@).take(k).push(spec_lines(s@)[k]));
            assert(spec_lines(s@) =~= spec_lines(s@).take(k + 1) + spec_lines_from(s@, nxt));
        }
        if j == n {
            p = n;
            proof {
                assert(spec_lines_from(s@, nxt) =~= Seq::<Seq<char>>::empty());
            }
        } else {
            p = j + 1;
        }
    }
    proof {
        assert(spec_lines_from(s@, p as int) =~= Seq::<Seq<char>>::empty());
        assert(spec_lines(s@) =~= spec_lines(s@).take(out@.len() as int));
        assert(out@.len() == spec_lines(s@).len());
        assert(out@.map_values(|l: TomlLine| line_view(l)) =~= spec_doc(s@));
    }
    Some(out)
}

} // verus!
