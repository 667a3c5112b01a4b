//! Character-sequence utilities: lexicographic ordering, equality,
//! substring search, prefix/suffix tests.
//!
//! Release dates are ISO-8601 strings, so their lexicographic order equals
//! their chronological order; the history ledger sorts by `lex_lt`.

use vstd::prelude::*;

verus! {

/// Sequence of views of a sequence of strings.
pub open spec fn views_of(v: Seq<String>) -> Seq<Seq<char>> {
    v.map_values(|s: String| s@)
}

/// Decide whether some element of `v` views to `s@`.
pub fn vec_contains_str(v: &Vec<String>, s: &str) -> (r: bool)
    ensures
        r == views_of(v@).contains(s@),
{
    let mut i: usize = 0;
    while i < v.len()
        invariant
            i <= v@.len(),
            forall|j: int| 0 <= j < i ==> views_of(v@)[j] != s@,
        decreases v@.len() - i,
    {
        if str_eq(v[i].as_str(), s) {
            assert(views_of(v@)[i as int] == s@);
            return true;
        }
        i += 1;
    }
    false
}

/// Membership in a sequence extended by one element.
pub proof fn lemma_push_contains<A>(s: Seq<A>, x: A)
    ensures
        forall|f: A| #[trigger] s.push(x).contains(f) <==> (s.contains(f) || f == x),
{
    assert forall|f: A| #[trigger] s.push(x).contains(f) implies (s.contains(f) || f == x) by {
        let q = choose|q: int| 0 <= q < s.push(x).len() && #[trigger] s.push(x)[q] == f;
        if q < s.len() {
            assert(s[q] == f);
        }
    }
    assert forall|f: A| s.contains(f) || f == x implies #[trigger] s.push(x).contains(f) by {
        if f == x {
            assert(s.push(x)[s.len() as int] == f);
        } else {
            let q = choose|q: int| 0 <= q < s.len() && #[trigger] s[q] == f;
            assert(s.push(x)[q] == f);
        }
    }
}

/// Strict lexicographic order on character sequences, by Unicode scalar value.
pub open spec fn lex_lt(a: Seq<char>, b: Seq<char>) -> bool
    decreases a.len(),
{
    if b.len() == 0 {
        false
    } else if a.len() == 0 {
        true
    } else if (a[0] as u32) < (b[0] as u32) {
        true
    } else if (a[0] as u32) > (b[0] as u32) {
        false
    } else {
        lex_lt(a.skip(1), b.skip(1))
    }
}

/// Exactly one of `lex_lt(a, b)`, `lex_lt(b, a)`, `a == b` holds.
pub proof fn lemma_lex_trichotomy(a: Seq<char>, b: Seq<char>)
    ensures
        lex_lt(a, b) || lex_lt(b, a) || a == b,
        lex_lt(a, b) ==> !lex_lt(b, a) && a != b,
        lex_lt(b, a) ==> !lex_lt(a, b) && a != b,
    decreases a.len(),
{
    if b.len() == 0 || a.len() == 0 {
        if a.len() == 0 && b.len() == 0 {
            assert(a =~= b);
        }
    } else if (a[0] as u32) < (b[0] as u32) || (a[0] as u32) > (b[0] as u32) {
    } else {
        assert(a[0] == b[0]) by {
            vstd::utf8::char_u32_cast(a[0], a[0] as u32);
            vstd::utf8::char_u32_cast(b[0], b[0] as u32);
        }
        lemma_lex_trichotomy(a.skip(1), b.skip(1));
        if a.skip(1) == b.skip(1) {
            assert forall|i: int| 0 <= i < a.len() implies a[i] == b[i] by {
                if i >= 1 {
                    assert(a[i] == a.skip(1)[i - 1]);
                    assert(b[i] == b.skip(1)[i - 1]);
                }
            }
            assert(a =~= b);
        }
        if a == b {
            assert(a.skip(1) =~= b.skip(1));
        }
    }
}

pub proof fn lemma_lex_lt_trans(a: Seq<char>, b: Seq<char>, c: Seq<char>)
    requires
        lex_lt(a, b),
        lex_lt(b, c),
    ensures
        lex_lt(a, c),
    decreases a.len(),
{
    if b.len() == 0 || a.len() == 0 {
    } else if c.len() == 0 {
    } else if (a[0] as u32) < (b[0] as u32) {
        if (b[0] as u32) < (c[0] as u32) {
        } else {
            assert((b[0] as u32) == (c[0] as u32));
        }
    } else {
        assert((a[0] as u32) == (b[0] as u32));
        if (b[0] as u32) < (c[0] as u32) {
        } else {
            lemma_lex_lt_trans(a.skip(1), b.skip(1), c.skip(1));
        }
    }
}

/// `s` occurs as a contiguous subsequence of `h`.
pub open spec fn has_substring(h: Seq<char>, s: Seq<char>) -> bool {
    exists|k: int| 0 <= k && k + s.len() <= h.len() && #[trigger] h.subrange(k, k + s.len() as int) == s
}

/// `h` ends with `s`.
pub open spec fn ends_with(h: Seq<char>, s: Seq<char>) -> bool {
    s.len() <= h.len() && h.subrange(h.len() - s.len(), h.len() as int) == s
}

/// `h` starts with `s`.
pub open spec fn starts_with(h: Seq<char>, s: Seq<char>) -> bool {
    s.len() <= h.len() && h.subrange(0, s.len() as int) == s
}

/// Decide `a@ == b@` for two string slices.
pub fn str_eq(a: &str, b: &str) -> (r: bool)
    ensures
        r == (a@ == b@),
{
    let alen = a.unicode_len();
    let blen = b.unicode_len();
    if alen != blen {
        return false;
    }
    let mut i: usize = 0;
    while i < alen
        invariant
            alen == a@.len(),
            blen == b@.len(),
            alen == blen,
            i <= alen,
            forall|j: int| 0 <= j < i ==> a@[j] == b@[j],
        decreases alen - i,
    {
        if a.get_char(i) != b.get_char(i) {
            return false;
        }
        i += 1;
    }
    proof {
        assert(a@ =~= b@);
    }
    true
}

/// Decide strict lexicographic order `lex_lt(a@, b@)`.
pub fn str_lt(a: &str, b: &str) -> (r: bool)
    ensures
        r == lex_lt(a@, b@),
{
    proof {
        assert(a@.skip(0) =~= a@);
        assert(b@.skip(0) =~= b@);
    }
    str_lt_from(a, b, 0)
}

fn str_lt_from(a: &str, b: &str, i: usize) -> (r: bool)
    requires
        i <= a@.len(),
        i <= b@.len(),
    ensures
        r == lex_lt(a@.skip(i as int), b@.skip(i as int)),
    decreases a@.len() - i,
{
    let alen = a.unicode_len();
    let blen = b.unicode_len();
    if i == blen {
        false
    } else if i == alen {
        true
    } else {
        let ca = a.get_char(i);
        let cb = b.get_char(i);
        if (ca as u32) < (cb as u32) {
            true
        } else if (ca as u32) > (cb as u32) {
            false
        } else {
            proof {
                assert(a@.skip(i as int).skip(1) =~= a@.skip(i as int + 1));
                assert(b@.skip(i as int).skip(1) =~= b@.skip(i as int + 1));
            }
            str_lt_from(a, b, i + 1)
        }
    }
}

/// Decide whether `sub@` occurs inside `s@`.
pub fn str_contains(s: &str, sub: &str) -> (r: bool)
    ensures
        r == has_substring(s@, sub@),
{
    let n = s.unicode_len();
    let m = sub.unicode_len();
    if m > n {
        return false;
    }
    if m == 0 {
        proof {
            assert(s@.subrange(0, 0 + sub@.len() as int) =~= sub@);
        }
        return true;
    }
    let mut k: usize = 0;
    while k <= n - m
        invariant
            n == s@.len(),
            m == sub@.len(),
            1 <= m <= n,
            k <= n - m + 1,
            forall|j: int| 0 <= j < k ==> #[trigger] s@.subrange(j, j + sub@.len() as int) != sub@,
        decreases n - m + 1 - k,
    {
        let piece = s.substring_char(k, k + m);
        if str_eq(piece, sub) {
            return true;
        }
        k += 1;
    }
    false
}

/// Decide whether `s@` ends with `suffix@`.
pub fn str_ends_with(s: &str, suffix: &str) -> (r: bool)
    ensures
        r == ends_with(s@, suffix@),
{
    let n = s.unicode_len();
    let m = suffix.unicode_len();
    if m > n {
        return false;
    }
    let piece = s.substring_char(n - m, n);
    str_eq(piece, suffix)
}

/// Decide whether `s@` starts with `prefix@`.
pub fn str_starts_with(s: &str, prefix: &str) -> (r: bool)
    ensures
        r == starts_with(s@, prefix@),
{
    let n = s.unicode_len();
    let m = prefix.unicode_len();
    if m > n {
        return false;
    }
    let piece = s.substring_char(0, m);
    str_eq(piece, prefix)
}

} // verus!
