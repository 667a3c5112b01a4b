//! The per-channel history ledger: which relative paths were fetched on
//! which release date.
//!
//! Dates are ISO-8601 strings, so their lexicographic order equals their
//! chronological order.  The ledger keeps one entry per date; recording a
//! date again replaces that date's file list.

use vstd::prelude::*;
use crate::errors::SyncError;
use crate::strutil::lemma_lex_lt_trans;
use crate::strutil::lemma_lex_trichotomy;
use crate::strutil::lex_lt;
use crate::strutil::str_eq;
use crate::strutil::str_lt;
use crate::strutil::views_of;
use crate::toml_doc::SpecLine;
use crate::toml_doc::TomlLine;
use crate::toml_doc::line_view;
use crate::toml_doc::parse_doc;
use crate::toml_doc::spec_doc;
use crate::toml_doc::spec_parse_line;
use crate::toml_doc::spec_parse_str_array;
use crate::toml_doc::ws_end;

verus! {

/// The paths fetched on one release date.
#[derive(Debug)]
pub struct HistoryEntry {
    pub date: String,
    pub files: Vec<String>,
}

/// A channel's whole history.
#[derive(Debug)]
pub struct ChannelHistoryFile {
    pub versions: Vec<HistoryEntry>,
}

impl View for HistoryEntry {
    type V = (Seq<char>, Seq<Seq<char>>);

    open spec fn view(&self) -> (Seq<char>, Seq<Seq<char>>) {
        (self.date@, views_of(self.files@))
    }
}

impl View for ChannelHistoryFile {
    type V = Seq<(Seq<char>, Seq<Seq<char>>)>;

    open spec fn view(&self) -> Seq<(Seq<char>, Seq<Seq<char>>)> {
        self.versions@.map_values(|e: HistoryEntry| e@)
    }
}

/// Dates are unique keys.
pub open spec fn hist_wf(v: Seq<(Seq<char>, Seq<Seq<char>>)>) -> bool {
    forall|i: int, j: int| 0 <= i < j < v.len() ==> (#[trigger] v[i].0) != (#[trigger] v[j].0)
}

/// The date keys of a history.
pub open spec fn hist_dates(v: Seq<(Seq<char>, Seq<Seq<char>>)>) -> Seq<Seq<char>> {
    v.map_values(|e: (Seq<char>, Seq<Seq<char>>)| e.0)
}

/// First index holding date `d`, else -1.
pub open spec fn find_index_from(v: Seq<(Seq<char>, Seq<Seq<char>>)>, d: Seq<char>, i: int) -> int
    decreases v.len() - i when 0 <= i <= v.len()
{
    if i >= v.len() {
        -1
    } else if v[i].0 == d {
        i
    } else {
        find_index_from(v, d, i + 1)
    }
}

pub open spec fn find_index(v: Seq<(Seq<char>, Seq<Seq<char>>)>, d: Seq<char>) -> int {
    find_index_from(v, d, 0)
}

pub proof fn lemma_find_index_from_props(
    v: Seq<(Seq<char>, Seq<Seq<char>>)>,
    d: Seq<char>,
    i: int,
)
    requires
        0 <= i <= v.len(),
    ensures
        find_index_from(v, d, i) >= -1,
        find_index_from(v, d, i) == -1 ==> forall|j: int| i <= j < v.len() ==> (#[trigger] v[j].0)
            != d,
        find_index_from(v, d, i) >= 0 ==> i <= find_index_from(v, d, i) < v.len() && v[find_index_from(
            v,
            d,
            i,
        )].0 == d && forall|j: int|
            i <= j < find_index_from(v, d, i) ==> (#[trigger] v[j].0) != d,
    decreases v.len() - i,
{
    if i < v.len() && v[i].0 != d {
        lemma_find_index_from_props(v, d, i + 1);
    }
}

/// The history after recording `files` under `date`: the existing entry for
/// `date` is replaced, else a new entry is appended.
pub open spec fn spec_add(
    v: Seq<(Seq<char>, Seq<Seq<char>>)>,
    d: Seq<char>,
    files: Seq<Seq<char>>,
) -> Seq<(Seq<char>, Seq<Seq<char>>)> {
    let i = find_index(v, d);
    if i >= 0 {
        v.update(i, (d, files))
    } else {
        v.push((d, files))
    }
}

/// Recording the same date and files twice is the same as recording them
/// once: a re-run of an unchanged sync leaves the ledger unchanged.
pub proof fn lemma_add_idempotent(
    v: Seq<(Seq<char>, Seq<Seq<char>>)>,
    d: Seq<char>,
    files: Seq<Seq<char>>,
)
    ensures
        spec_add(spec_add(v, d, files), d, files) == spec_add(v, d, files),
{
    let v1 = spec_add(v, d, files);
    lemma_find_index_from_props(v, d, 0);
    let i = find_index(v, d);
    if i >= 0 {
        assert(v1 == v.update(i, (d, files)));
        assert(v1[i].0 == d);
        assert forall|j: int| 0 <= j < i implies (#[trigger] v1[j].0) != d by {
            assert(v1[j] == v[j]);
        }
        lemma_find_index_increases(v1, d, 0, i);
        lemma_find_index_from_props(v1, d, 0);
        let i1 = find_index(v1, d);
        assert(i1 == i);
        assert(spec_add(v1, d, files) =~= v1);
    } else {
        assert(v1 == v.push((d, files)));
        let n = v.len() as int;
        assert(v1[n].0 == d);
        assert forall|j: int| 0 <= j < n implies (#[trigger] v1[j].0) != d by {
            assert(v1[j] == v[j]);
            assert(v[j].0 != d);
        }
        lemma_find_index_increases(v1, d, 0, n);
        lemma_find_index_from_props(v1, d, 0);
        let i1 = find_index(v1, d);
        assert(i1 == n);
        assert(spec_add(v1, d, files) =~= v1);
    }
}

/// If `v[k].0 == d` and nothing earlier holds `d`, the first index is `k`.
proof fn lemma_find_index_increases(
    v: Seq<(Seq<char>, Seq<Seq<char>>)>,
    d: Seq<char>,
    i: int,
    k: int,
)
    requires
        0 <= i <= k < v.len(),
        v[k].0 == d,
        forall|j: int| i <= j < k ==> (#[trigger] v[j].0) != d,
    ensures
        find_index_from(v, d, i) == k,
    decreases k - i,
{
    if i < k {
        lemma_find_index_increases(v, d, i + 1, k);
    }
}

/// Views of a vector of history entries.
pub open spec fn entries_view(v: Seq<HistoryEntry>) -> Seq<(Seq<char>, Seq<Seq<char>>)> {
    v.map_values(|e: HistoryEntry| e@)
}

/// First entry recorded under `date`, if any.
fn find_date(v: &Vec<HistoryEntry>, date: &str) -> (r: Option<usize>)
    ensures
        match r {
            Some(i) => i < v@.len() && find_index(entries_view(v@), date@) == i as int,
            None => find_index(entries_view(v@), date@) == -1,
        },
{
    find_date_from(v, date, 0)
}

fn find_date_from(v: &Vec<HistoryEntry>, date: &str, i: usize) -> (r: Option<usize>)
    requires
        i <= v@.len(),
    ensures
        match r {
            Some(k) => k < v@.len() && find_index_from(entries_view(v@), date@, i as int)
                == k as int,
            None => find_index_from(entries_view(v@), date@, i as int) == -1,
        },
    decreases v@.len() - i,
{
    if i == v.len() {
        None
    } else if str_eq(v[i].date.as_str(), date) {
        assert(entries_view(v@)[i as int].0 == v@[i as int].date@);
        Some(i)
    } else {
        assert(entries_view(v@)[i as int].0 == v@[i as int].date@);
        find_date_from(v, date, i + 1)
    }
}

/// Record the paths of `files` under `date`: replace the existing entry for
/// that date or append a new one.  Uniqueness of dates is preserved.
pub fn add_to_channel_history(
    h: &ChannelHistoryFile,
    date: &str,
    files: &Vec<(String, String)>,
) -> (r: ChannelHistoryFile)
    requires
        hist_wf(h@),
    ensures
        r@ == spec_add(h@, date@, crate::manifest::pairs_view(files@).map_values(
            |p: (Seq<char>, Seq<char>)| p.0,
        )),
        hist_wf(r@),
{
    let ghost fpaths = crate::manifest::pairs_view(files@).map_values(
        |p: (Seq<char>, Seq<char>)| p.0,
    );
    let mut paths: Vec<String> = Vec::new();
    let mut k: usize = 0;
    while k < files.len()
        invariant
            k <= files@.len(),
            views_of(paths@) =~= crate::manifest::pairs_view(files@).map_values(
                |p: (Seq<char>, Seq<char>)| p.0,
            ).take(k as int),
        decreases files@.len() - k,
    {
        paths.push(files[k].0.clone());
        proof {
            let full = crate::manifest::pairs_view(files@).map_values(
                |p: (Seq<char>, Seq<char>)| p.0,
            );
            assert(full[k as int] == files@[k as int].0@);
            assert(full.take(k + 1) =~= full.take(k as int).push(full[k as int]));
            assert(views_of(paths@) =~= full.take(k + 1));
        }
        k += 1;
    }
    proof {
        assert(fpaths.take(fpaths.len() as int) =~= fpaths);
    }
    let entry = HistoryEntry { date: date.to_owned(), files: paths };
    let mut versions = clone_entries(&h.versions);
    proof {
        lemma_find_index_from_props(h@, date@, 0);
    }
    proof {
        assert(entries_view(h.versions@) =~= h@);
    }
    match find_date(&h.versions, date) {
        Some(i) => {
            let _replaced = versions.remove(i);
            versions.insert(i, entry);
            let r = ChannelHistoryFile { versions };
            proof {
                assert(r@ =~= spec_add(h@, date@, fpaths));
                assert(hist_wf(r@)) by {
                    assert(h@[i as int].0 == date@);
                    assert(forall|a: int|
                        0 <= a < r@.len() ==> (#[trigger] r@[a].0) == h@[a].0);
                }
            }
            r
        },
        None => {
            versions.push(entry);
            let r = ChannelHistoryFile { versions };
            proof {
                assert(r@ =~= spec_add(h@, date@, fpaths));
                assert(hist_wf(r@)) by {
                    assert(forall|a: int|
                        0 <= a < h@.len() ==> (#[trigger] r@[a].0) == h@[a].0);
                    assert(r@[h@.len() as int].0 == date@);
                }
            }
            r
        },
    }
}

/// A deep copy of the entries (derived clones are opaque to the verifier,
/// so the copy is spelled out).
fn clone_entries(v: &Vec<HistoryEntry>) -> (r: Vec<HistoryEntry>)
    ensures
        r@.map_values(|e: HistoryEntry| e@) =~= v@.map_values(|e: HistoryEntry| e@),
        r@.len() == v@.len(),
{
    let mut out: Vec<HistoryEntry> = Vec::new();
    let mut i: usize = 0;
    while i < v.len()
        invariant
            i <= v@.len(),
            out@.len() == i,
            forall|j: int| 0 <= j < i ==> (#[trigger] out@[j]@) == v@[j]@,
        decreases v@.len() - i,
    {
        let e = &v[i];
        let mut files: Vec<String> = Vec::new();
        let mut k: usize = 0;
        while k < e.files.len()
            invariant
                k <= e.files@.len(),
                views_of(files@) =~= views_of(e.files@).take(k as int),
            decreases e.files@.len() - k,
        {
            files.push(e.files[k].clone());
            proof {
                assert(views_of(e.files@)[k as int] == e.files@[k as int]@);
                assert(views_of(e.files@).take(k + 1) =~= views_of(e.files@).take(k as int).push(
                    views_of(e.files@)[k as int],
                ));
                assert(views_of(files@) =~= views_of(e.files@).take(k + 1));
            }
            k += 1;
        }
        proof {
            assert(views_of(e.files@).take(e.files@.len() as int) =~= views_of(e.files@));
        }
        out.push(HistoryEntry { date: e.date.clone(), files });
        i += 1;
    }
    proof {
        assert(out@.map_values(|e: HistoryEntry| e@) =~= v@.map_values(|e: HistoryEntry| e@));
    }
    out
}

/// Every element is at least as late as every later element.
pub open spec fn sorted_desc(s: Seq<Seq<char>>) -> bool {
    forall|i: int, j: int| 0 <= i < j < s.len() ==> !lex_lt(#[trigger] s[i], #[trigger] s[j])
}

pub open spec fn distinct_seq(s: Seq<Seq<char>>) -> bool {
    forall|i: int, j: int| 0 <= i < j < s.len() ==> (#[trigger] s[i]) != (#[trigger] s[j])
}

/// Insert `x` into a descending-sorted vector, keeping it sorted.
fn insert_sorted_desc(out: &mut Vec<String>, x: String)
    requires
        sorted_desc(views_of(old(out)@)),
        distinct_seq(views_of(old(out)@)),
        !views_of(old(out)@).contains(x@),
    ensures
        final(out)@.len() == old(out)@.len() + 1,
        sorted_desc(views_of(final(out)@)),
        distinct_seq(views_of(final(out)@)),
        forall|d: Seq<char>|
            views_of(final(out)@).contains(d) <==> (views_of(old(out)@).contains(d) || d == x@),
{
    let ghost ovv = views_of(out@);
    let ghost ov = out@;
    let mut p: usize = 0;
    while p < out.len() && !str_lt(out[p].as_str(), x.as_str())
        invariant
            p <= out@.len(),
            out@ == ov,
            ovv == views_of(ov),
            forall|q: int| 0 <= q < p ==> !lex_lt(#[trigger] ovv[q], x@),
        decreases out@.len() - p,
    {
        proof {
            assert(ovv[p as int] == ov[p as int]@);
        }
        p += 1;
    }
    proof {
        if p < ov.len() {
            assert(ovv[p as int] == ov[p as int]@);
            assert(lex_lt(ovv[p as int], x@));
        }
    }
    let ghost pos = p as int;
    out.insert(p, x);
    proof {
        ov.insert_ensures(pos, out@[pos]);
        let nv = views_of(out@);
        assert(nv.len() == ovv.len() + 1);
        assert forall|i: int| 0 <= i < nv.len() implies nv[i] == (if i < pos {
            ovv[i]
        } else if i == pos {
            x@
        } else {
            ovv[i - 1]
        }) by {
            assert(nv[i] == out@[i]@);
            if i < pos {
                assert(out@[i] == ov[i]);
                assert(ovv[i] == ov[i]@);
            } else if i > pos {
                assert(out@[i] == ov[i - 1]);
                assert(ovv[i - 1] == ov[i - 1]@);
            }
        }
        assert forall|i: int, j: int| 0 <= i < j < nv.len() implies !lex_lt(
            #[trigger] nv[i],
            #[trigger] nv[j],
        ) by {
            if i < pos && j == pos {
            } else if i == pos && j > pos {
                if j - 1 == pos {
                    if lex_lt(x@, ovv[pos]) {
                        lemma_lex_trichotomy(x@, ovv[pos]);
                        assert(false);
                    }
                } else {
                    if lex_lt(x@, ovv[j - 1]) {
                        lemma_lex_lt_trans(ovv[pos], x@, ovv[j - 1]);
                        assert(false);
                    }
                }
            }
        }
        assert forall|i: int, j: int| 0 <= i < j < nv.len() implies (#[trigger] nv[i]) != (
        #[trigger] nv[j]) by {
            if i == pos {
                assert(nv[j] == ovv[j - 1]);
                assert(ovv.contains(ovv[j - 1]));
            } else if j == pos {
                assert(nv[i] == ovv[i]);
                assert(ovv.contains(ovv[i]));
            }
        }
        assert forall|d: Seq<char>| nv.contains(d) implies (ovv.contains(d) || d == x@) by {
            let i = choose|i: int| 0 <= i < nv.len() && #[trigger] nv[i] == d;
            if i < pos {
                assert(ovv[i] == d);
                assert(ovv.contains(d));
            } else if i > pos {
                assert(ovv[i - 1] == d);
                assert(ovv.contains(d));
            }
        }
        assert forall|d: Seq<char>| ovv.contains(d) || d == x@ implies nv.contains(d) by {
            if d == x@ {
                assert(nv[pos] == d);
            } else {
                let i = choose|i: int| 0 <= i < ovv.len() && #[trigger] ovv[i] == d;
                if i < pos {
                    assert(nv[i] == d);
                } else {
                    assert(nv[i + 1] == d);
                }
            }
        }
    }
}

/// Up to `versions` date keys, latest first: the result is strictly
/// descending, every entry is a recorded date, and every recorded date left
/// out is earlier than everything returned.
pub fn latest_dates_from_channel_history(
    channel_history: &ChannelHistoryFile,
    versions: usize,
) -> (r: Vec<String>)
    requires
        hist_wf(channel_history@),
    ensures
        r@.len() == (if versions as int <= channel_history@.len() {
            versions as int
        } else {
            channel_history@.len() as int
        }),
        forall|i: int|
            0 <= i < r@.len() ==> hist_dates(channel_history@).contains(#[trigger] r@[i]@),
        forall|i: int, j: int| 0 <= i < j < r@.len() ==> lex_lt(#[trigger] r@[j]@, #[trigger] r@[i]@),
        forall|d: Seq<char>, i: int|
            (#[trigger] hist_dates(channel_history@).contains(d)) && !views_of(r@).contains(d)
                && 0 <= i < r@.len() ==> lex_lt(d, #[trigger] r@[i]@),
{
    let ghost hv = channel_history@;
    let ghost dview = hist_dates(hv);
    proof {
        assert forall|i: int| 0 <= i < hv.len() implies #[trigger] dview[i] == hv[i].0 by {}
        assert(distinct_seq(dview));
    }
    let mut dates: Vec<String> = Vec::new();
    let mut i: usize = 0;
    while i < channel_history.versions.len()
        invariant
            i <= hv.len(),
            hv == channel_history@,
            dview == hist_dates(hv),
            views_of(dates@) =~= dview.take(i as int),
        decreases hv.len() - i,
    {
        dates.push(channel_history.versions[i].date.clone());
        proof {
            assert(hv[i as int].0 == channel_history.versions@[i as int].date@);
            assert(dview[i as int] == hv[i as int].0);
            assert(dview.take(i + 1) =~= dview.take(i as int).push(dview[i as int]));
            assert(views_of(dates@) =~= dview.take(i + 1));
        }
        i += 1;
    }
    proof {
        assert(dview.take(hv.len() as int) =~= dview);
        assert(views_of(dates@) =~= dview);
    }
    let mut sorted: Vec<String> = Vec::new();
    let mut k: usize = 0;
    while k < dates.len()
        invariant
            k <= dates@.len(),
            views_of(dates@) == dview,
            distinct_seq(dview),
            sorted@.len() == k,
            sorted_desc(views_of(sorted@)),
            distinct_seq(views_of(sorted@)),
            forall|d: Seq<char>|
                views_of(sorted@).contains(d) <==> dview.take(k as int).contains(d),
        decreases dates@.len() - k,
    {
        proof {
            assert(dview[k as int] == dates@[k as int]@);
            if views_of(sorted@).contains(dates@[k as int]@) {
                let q = choose|q: int|
                    0 <= q < k && #[trigger] dview.take(k as int)[q] == dates@[k as int]@;
                assert(dview[q] == dview[k as int]);
                assert(false);
            }
        }
        let ghost sv0 = views_of(sorted@);
        insert_sorted_desc(&mut sorted, dates[k].clone());
        proof {
            assert forall|d: Seq<char>| views_of(sorted@).contains(d) implies dview.take(
                k + 1,
            ).contains(d) by {
                if sv0.contains(d) {
                    let q = choose|q: int| 0 <= q < k && #[trigger] dview.take(k as int)[q] == d;
                    assert(dview.take(k + 1)[q] == d);
                } else {
                    assert(d == dview[k as int]);
                    assert(dview.take(k + 1)[k as int] == d);
                }
            }
            assert forall|d: Seq<char>| dview.take(k + 1).contains(d) implies views_of(
                sorted@,
            ).contains(d) by {
                let q = choose|q: int| 0 <= q < k + 1 && #[trigger] dview.take(k + 1)[q] == d;
                if q < k {
                    assert(dview.take(k as int)[q] == d);
                } else {
                    assert(d == dview[k as int]);
                }
            }
        }
        k += 1;
    }
    proof {
        assert(dview.take(dates@.len() as int) =~= dview);
    }
    let mut r = sorted;
    let ghost full = views_of(r@);
    if versions < r.len() {
        r.truncate(versions);
        proof {
            assert forall|i2: int| 0 <= i2 < r@.len() implies views_of(r@)[i2] == full[i2] by {
                assert(views_of(r@)[i2] == r@[i2]@);
                assert(full[i2] == sorted@[i2]@);
            }
        }
    }
    proof {
        let rv = views_of(r@);
        assert(r@.len() == (if versions as int <= hv.len() {
            versions as int
        } else {
            hv.len() as int
        }));
        assert forall|i2: int| 0 <= i2 < r@.len() implies rv[i2] == full[i2] by {
            assert(rv[i2] == r@[i2]@);
        }
        assert forall|i2: int| 0 <= i2 < r@.len() implies hist_dates(hv).contains(
            #[trigger] r@[i2]@,
        ) by {
            assert(full[i2] == r@[i2]@);
            assert(full.contains(full[i2]));
        }
        assert forall|i2: int, j2: int| 0 <= i2 < j2 < r@.len() implies lex_lt(
            #[trigger] r@[j2]@,
            #[trigger] r@[i2]@,
        ) by {
            assert(full[i2] == r@[i2]@ && full[j2] == r@[j2]@);
            assert(!lex_lt(full[i2], full[j2]));
            assert(full[i2] != full[j2]);
            lemma_lex_trichotomy(full[i2], full[j2]);
        }
        assert forall|d: Seq<char>, i2: int|
            (#[trigger] hist_dates(hv).contains(d)) && !views_of(r@).contains(d) && 0 <= i2
                < r@.len() implies lex_lt(d, #[trigger] r@[i2]@) by {
            assert(full.contains(d));
            let q = choose|q: int| 0 <= q < full.len() && #[trigger] full[q] == d;
            if q < r@.len() {
                assert(views_of(r@)[q] == full[q]);
                assert(views_of(r@).contains(d));
                assert(false);
            }
            assert(!lex_lt(full[i2], full[q]));
            assert(full[i2] != full[q]);
            lemma_lex_trichotomy(full[i2], full[q]);
            assert(full[i2] == r@[i2]@);
        }
    }
    r
}

// ------------------------------------------------------------------
// Reading the ledger from its persisted document.
// ------------------------------------------------------------------

/// Fold of a history document: entries of the `[versions]` table, one date
/// key to one array of paths; a repeated date is an error (`None`).
pub open spec fn hist_fold(
    lines: Seq<SpecLine>,
    acc: Seq<(Seq<char>, Seq<Seq<char>>)>,
    in_versions: bool,
) -> Option<Seq<(Seq<char>, Seq<Seq<char>>)>>
    decreases lines.len(),
{
    if lines.len() == 0 {
        Some(acc)
    } else {
        match lines[0] {
            SpecLine::Header(path) => hist_fold(
                lines.skip(1),
                acc,
                path.len() == 1 && path[0] == "versions"@,
            ),
            SpecLine::ArrKV(d, ps) => {
                if in_versions {
                    if find_index(acc, d) >= 0 {
                        None
                    } else {
                        hist_fold(lines.skip(1), acc.push((d, ps)), in_versions)
                    }
                } else {
                    hist_fold(lines.skip(1), acc, in_versions)
                }
            },
            _ => hist_fold(lines.skip(1), acc, in_versions),
        }
    }
}

/// The history a document denotes.
pub open spec fn spec_parse_history(text: Seq<char>) -> Option<
    Seq<(Seq<char>, Seq<Seq<char>>)>,
> {
    if crate::manifest::doc_ok(text) {
        hist_fold(spec_doc(text), seq![], false)
    } else {
        None
    }
}

/// A deep copy of a vector of strings.
fn clone_strings(v: &Vec<String>) -> (r: Vec<String>)
    ensures
        views_of(r@) =~= views_of(v@),
        r@.len() == v@.len(),
{
    let mut out: Vec<String> = Vec::new();
    let mut i: usize = 0;
    while i < v.len()
        invariant
            i <= v@.len(),
            views_of(out@) =~= views_of(v@).take(i as int),
        decreases v@.len() - i,
    {
        out.push(v[i].clone());
        proof {
            assert(views_of(v@)[i as int] == v@[i as int]@);
            assert(views_of(v@).take(i + 1) =~= views_of(v@).take(i as int).push(
                views_of(v@)[i as int],
            ));
            assert(views_of(out@) =~= views_of(v@).take(i + 1));
        }
        i += 1;
    }
    proof {
        assert(views_of(v@).take(v@.len() as int) =~= views_of(v@));
    }
    out
}

/// Parse a channel's persisted history document.
pub fn parse_history(text: &str) -> (r: Result<ChannelHistoryFile, SyncError>)
    ensures
        match spec_parse_history(text@) {
            Some(v) => r matches Ok(h) && h@ == v && hist_wf(h@),
            None => r matches Err(e) && e == SyncError::Parse,
        },
{
    match parse_doc(text) {
        None => {
            proof {
                assert(!crate::manifest::doc_ok(text@));
            }
            Err(SyncError::Parse)
        },
        Some(lines) => {
            proof {
                assert forall|i: int| 0 <= i < spec_doc(text@).len() implies spec_doc(text@)[i]
                    != SpecLine::Bad by {
                    assert(spec_doc(text@)[i] == line_view(lines@[i]));
                }
            }
            let ghost doc = spec_doc(text@);
            let mut versions: Vec<HistoryEntry> = Vec::new();
            let mut in_versions = false;
            proof {
                assert(doc.skip(0) =~= doc);
                assert(entries_view(versions@) =~= Seq::<(Seq<char>, Seq<Seq<char>>)>::empty());
            }
            let mut i: usize = 0;
            while i < lines.len()
                invariant
                    i <= lines@.len(),
                    doc == spec_doc(text@),
                    doc =~= lines@.map_values(|l: TomlLine| line_view(l)),
                    hist_fold(doc, seq![], false) == hist_fold(
                        doc.skip(i as int),
                        entries_view(versions@),
                        in_versions,
                    ),
                    hist_wf(entries_view(versions@)),
                decreases lines@.len() - i,
            {
                proof {
                    assert(doc.skip(i as int)[0] == doc[i as int]);
                    assert(doc[i as int] == line_view(lines@[i as int]));
                    assert(doc.skip(i as int).skip(1) =~= doc.skip(i as int + 1));
                }
                match &lines[i] {
                    TomlLine::Header(path) => {
                        in_versions = path.len() == 1 && str_eq(path[0].as_str(), "versions");
                        proof {
                            if path@.len() == 1 {
                                assert(views_of(path@)[0] == path@[0]@);
                            }
                        }
                    },
                    TomlLine::ArrKV(d, ps) => {
                        if in_versions {
                            match find_date(&versions, d.as_str()) {
                                Some(_) => {
                                    return Err(SyncError::Parse);
                                },
                                None => {
                                    let entry = HistoryEntry {
                                        date: d.clone(),
                                        files: clone_strings(ps),
                                    };
                                    let ghost ev0 = entries_view(versions@);
                                    proof {
                                        lemma_find_index_from_props(ev0, d@, 0);
                                    }
                                    versions.push(entry);
                                    proof {
                                        assert(entries_view(versions@) =~= ev0.push(
                                            (d@, views_of(ps@)),
                                        ));
                                        assert(hist_wf(entries_view(versions@))) by {
                                            let nv = entries_view(versions@);
                                            assert(forall|a: int|
                                                0 <= a < ev0.len() ==> (#[trigger] nv[a].0)
                                                    == ev0[a].0);
                                            assert(nv[ev0.len() as int].0 == d@);
                                        }
                                    }
                                },
                            }
                        }
                    },
                    _ => {},
                }
                i += 1;
            }
            proof {
                assert(doc.skip(lines@.len() as int) =~= Seq::<SpecLine>::empty());
            }
            let h = ChannelHistoryFile { versions };
            proof {
                assert(h@ =~= entries_view(h.versions@));
            }
            Ok(h)
        },
    }
}

// ------------------------------------------------------------------
// Writing the ledger back out.
// ------------------------------------------------------------------

pub open spec fn quote_str(s: Seq<char>) -> Seq<char> {
    "\""@ + s + "\""@
}

/// `"a", "b", "c"` — the quoted paths, comma-separated.
pub open spec fn paths_toml(ps: Seq<Seq<char>>) -> Seq<char>
    decreases ps.len(),
{
    if ps.len() == 0 {
        Seq::<char>::empty()
    } else if ps.len() == 1 {
        quote_str(ps[0])
    } else {
        quote_str(ps[0]) + ", "@ + paths_toml(ps.skip(1))
    }
}

/// `"date" = ["a", "b"]` and a newline.
pub open spec fn entry_toml(e: (Seq<char>, Seq<Seq<char>>)) -> Seq<char> {
    quote_str(e.0) + " = ["@ + paths_toml(e.1) + "]\n"@
}

pub open spec fn entries_toml(l: Seq<(Seq<char>, Seq<Seq<char>>)>) -> Seq<char>
    decreases l.len(),
{
    if l.len() == 0 {
        Seq::<char>::empty()
    } else {
        entry_toml(l[0]) + entries_toml(l.skip(1))
    }
}

/// The persisted form of a history: a `[versions]` table holding one line
/// per date.
pub open spec fn spec_history_toml(l: Seq<(Seq<char>, Seq<Seq<char>>)>) -> Seq<char> {
    "[versions]\n"@ + entries_toml(l)
}

/// Serialize a history for whole-file persistence.
pub fn history_to_toml(h: &ChannelHistoryFile) -> (r: String)
    ensures
        r@ == spec_history_toml(h@),
{
    let ghost hv = h@;
    let mut s = String::new();
    s.append("[versions]\n");
    proof {
        assert(hv.skip(0) =~= hv);
        assert(s@ =~= "[versions]\n"@);
    }
    let mut i: usize = 0;
    while i < h.versions.len()
        invariant
            i <= hv.len(),
            hv == h@,
            spec_history_toml(hv) == s@ + entries_toml(hv.skip(i as int)),
        decreases hv.len() - i,
    {
        proof {
            assert(hv.skip(i as int)[0] == hv[i as int]);
            assert(hv[i as int] == h.versions@[i as int]@);
            assert(hv.skip(i as int).skip(1) =~= hv.skip(i as int + 1));
        }
        let e = &h.versions[i];
        let ghost pv = e@.1;
        s.append("\"");
        s.append(e.date.as_str());
        s.append("\"");
        s.append(" = [");
        proof {
            assert(pv.skip(0) =~= pv);
            assert(spec_history_toml(hv) =~= s@ + paths_toml(pv.skip(0)) + "]\n"@ + entries_toml(
                hv.skip(i as int + 1),
            ));
        }
        let mut j: usize = 0;
        while j < e.files.len()
            invariant
                j <= pv.len(),
                pv == e@.1,
                spec_history_toml(hv) == s@ + paths_toml(pv.skip(j as int)) + "]\n"@
                    + entries_toml(hv.skip(i as int + 1)),
            decreases pv.len() - j,
        {
            proof {
                assert(pv.skip(j as int)[0] == pv[j as int]);
                assert(pv[j as int] == e.files@[j as int]@);
                assert(pv.skip(j as int).skip(1) =~= pv.skip(j as int + 1));
            }
            s.append("\"");
            s.append(e.files[j].as_str());
            s.append("\"");
            if j + 1 < e.files.len() {
                s.append(", ");
            }
            proof {
                assert(spec_history_toml(hv) =~= s@ + paths_toml(pv.skip(j as int + 1)) + "]\n"@
                    + entries_toml(hv.skip(i as int + 1)));
            }
            j += 1;
        }
        proof {
            assert(pv.skip(pv.len() as int) =~= Seq::<Seq<char>>::empty());
        }
        s.append("]\n");
        proof {
            assert(spec_history_toml(hv) =~= s@ + entries_toml(hv.skip(i as int + 1)));
        }
        i += 1;
    }
    proof {
        assert(hv.skip(hv.len() as int) =~= Seq::<(Seq<char>, Seq<Seq<char>>)>::empty());
        assert(s@ =~= spec_history_toml(hv));
    }
    s
}

// ------------------------------------------------------------------
// The persisted form reads back as itself.
// ------------------------------------------------------------------

/// Free of the characters that the ledger's serialized form reserves.
pub open spec fn clean_str(s: Seq<char>) -> bool {
    forall|k: int| 0 <= k < s.len() ==> s[k] != '"' && s[k] != '\\' && s[k] != '\n'
}

pub open spec fn clean_paths(ps: Seq<Seq<char>>) -> bool {
    forall|i: int| 0 <= i < ps.len() ==> clean_str(#[trigger] ps[i])
}

/// The serialized path list holds no newline.
proof fn lemma_paths_toml_no_newline(ps: Seq<Seq<char>>)
    requires
        clean_paths(ps),
    ensures
        forall|k: int| 0 <= k < paths_toml(ps).len() ==> (#[trigger] paths_toml(ps)[k]) != '\n',
    decreases ps.len(),
{
    reveal_strlit("\"");
    reveal_strlit(", ");
    if ps.len() == 0 {
    } else {
        let p0 = ps[0];
        let q = quote_str(p0);
        assert(clean_str(p0));
        assert forall|k: int| 0 <= k < q.len() implies q[k] != '\n' by {
            if k == 0 {
                assert(q[k] == '"');
            } else if k < 1 + p0.len() {
                assert(q[k] == p0[k - 1]);
            } else {
                assert(q[k] == '"');
            }
        }
        if ps.len() == 1 {
            assert(paths_toml(ps) == q);
        } else {
            lemma_paths_toml_no_newline(ps.skip(1));
            let rest = paths_toml(ps.skip(1));
            assert(paths_toml(ps) == q + ", "@ + rest);
            assert forall|k: int| 0 <= k < paths_toml(ps).len() implies (
            #[trigger] paths_toml(ps)[k]) != '\n' by {
                if k < q.len() {
                    assert(paths_toml(ps)[k] == q[k]);
                } else if k < q.len() + 2 {
                    assert(paths_toml(ps)[k] == ", "@[k - q.len()]);
                } else {
                    assert(paths_toml(ps)[k] == rest[k - q.len() - 2]);
                }
            }
        }
    }
}

/// A serialized path list followed by `]` parses back to exactly its
/// paths.  `i` is where the parser starts; skipping whitespace from `i`
/// reaches the content at `c`.
proof fn lemma_array_parse_at(s: Seq<char>, i: int, c: int, ps: Seq<Seq<char>>)
    requires
        0 <= i <= s.len(),
        ws_end(s, i) == c,
        c + paths_toml(ps).len() + 1 <= s.len(),
        forall|k: int|
            0 <= k < paths_toml(ps).len() ==> s[c + k] == (#[trigger] paths_toml(ps)[k]),
        s[c + paths_toml(ps).len()] == ']',
        clean_paths(ps),
    ensures
        spec_parse_str_array(s, i) == Some((ps, c + paths_toml(ps).len() + 1)),
    decreases ps.len(),
{
    reveal_strlit("\"");
    reveal_strlit(", ");
    crate::toml_doc::lemma_ws_end_bounds(s, i);
    let plen = paths_toml(ps).len() as int;
    if ps.len() == 0 {
        assert(s[c] == ']');
        assert(spec_parse_str_array(s, i) == Some((Seq::<Seq<char>>::empty(), c + 1)));
        assert(ps =~= Seq::<Seq<char>>::empty());
    } else {
        let p0 = ps[0];
        let q = quote_str(p0);
        assert(clean_str(p0));
        assert(paths_toml(ps)[0] == q[0]);
        assert(s[c + 0] == paths_toml(ps)[0]);
        assert(s[c] == '"');
        // the quoted first path
        assert forall|k: int| 0 <= k < p0.len() implies s[c + 1 + k] == p0[k] by {
            assert(paths_toml(ps)[1 + k] == q[1 + k]);
            assert(q[1 + k] == p0[k]);
            assert(s[c + (1 + k)] == paths_toml(ps)[1 + k]);
        }
        let pl = p0.len() as int;
        assert(paths_toml(ps)[1 + pl] == q[1 + pl]);
        assert(s[c + (1 + pl)] == paths_toml(ps)[1 + pl]);
        assert(s[c + 1 + p0.len()] == '"');
        crate::toml_doc::lemma_parse_string_at(s, c, p0);
        let j2 = c + p0.len() + 2;
        if ps.len() == 1 {
            assert(paths_toml(ps) == q);
            assert(s[c + plen] == ']');
            assert(j2 == c + plen);
            crate::toml_doc::lemma_ws_end_value(s, j2, j2);
            assert(spec_parse_str_array(s, i) == Some((seq![p0], j2 + 1)));
            assert(ps =~= seq![p0]);
        } else {
            let rest = paths_toml(ps.skip(1));
            assert(paths_toml(ps) == q + ", "@ + rest);
            assert(paths_toml(ps)[q.len() as int] == ", "@[0]);
            let ql = q.len() as int;
            assert(s[c + ql] == paths_toml(ps)[ql]);
            assert(s[j2] == ',');
            assert(paths_toml(ps)[ql + 1] == ", "@[1]);
            assert(s[c + (ql + 1)] == paths_toml(ps)[ql + 1]);
            assert(s[j2 + 1] == ' ');
            crate::toml_doc::lemma_ws_end_value(s, j2, j2);
            // the recursive call starts after the comma and skips the space
            let c2 = j2 + 2;
            assert forall|k: int| 0 <= k < rest.len() implies s[c2 + k] == (#[trigger] rest[k]) by {
                assert(paths_toml(ps)[ql + 2 + k] == rest[k]);
                assert(s[c + (ql + 2 + k)] == paths_toml(ps)[ql + 2 + k]);
            }
            assert(rest.len() > 0);
            assert(rest[0] == quote_str(ps.skip(1)[0])[0]);
            assert(s[c2] == '"');
            crate::toml_doc::lemma_ws_end_value(s, j2 + 1, c2);
            assert(s[c2 + rest.len()] == ']') by {
                assert(c2 + rest.len() == c + plen);
            }
            assert(clean_paths(ps.skip(1))) by {
                assert(forall|k: int|
                    0 <= k < ps.skip(1).len() ==> (#[trigger] ps.skip(1)[k]) == ps[k + 1]);
            }
            lemma_array_parse_at(s, j2 + 1, c2, ps.skip(1));
            assert(spec_parse_str_array(s, j2 + 1) == Some((ps.skip(1), c2 + rest.len() + 1)));
            assert(spec_parse_str_array(s, i) == Some((seq![p0] + ps.skip(1), c2 + rest.len()
                + 1)));
            assert(seq![p0] + ps.skip(1) =~= ps);
            assert(c2 + rest.len() + 1 == c + plen + 1);
        }
    }
}


/// The serialized form of one ledger entry, without its trailing newline.
pub open spec fn entry_line(e: (Seq<char>, Seq<Seq<char>>)) -> Seq<char> {
    quote_str(e.0) + " = ["@ + paths_toml(e.1) + "]"@
}

/// A serialized ledger entry line parses back to exactly its entry.
proof fn lemma_entry_line_parses(e: (Seq<char>, Seq<Seq<char>>))
    requires
        clean_str(e.0),
        clean_paths(e.1),
    ensures
        spec_parse_line(entry_line(e)) == SpecLine::ArrKV(e.0, e.1),
{
    reveal_strlit("\"");
    reveal_strlit(" = [");
    reveal_strlit("]");
    reveal_strlit("true");
    reveal_strlit("false");
    let s = entry_line(e);
    let d = e.0;
    let ps = e.1;
    let dl = d.len() as int;
    let plen = paths_toml(ps).len() as int;
    let q = quote_str(d);
    let a1 = q + " = ["@;
    let a2 = a1 + paths_toml(ps);
    assert(s == a2 + "]"@);
    assert(q.len() == dl + 2);
    assert(a1.len() == dl + 6);
    assert(s.len() == dl + 7 + plen);
    assert forall|k: int| 0 <= k < a1.len() implies s[k] == a1[k] by {
        assert(a2[k] == a1[k]);
        assert(s[k] == a2[k]);
    }
    assert forall|k: int| 0 <= k < q.len() implies a1[k] == q[k] by {}
    assert(s[0] == '"');
    assert forall|k: int| 0 <= k < dl implies s[1 + k] == d[k] by {
        assert(q[1 + k] == d[k]);
    }
    assert(q[1 + dl] == '"');
    assert(s[1 + dl] == '"');
    assert(s[dl + 2] == ' ') by {
        assert(a1[(q.len() + 0) as int] == " = ["@[0]);
    }
    assert(s[dl + 3] == '=') by {
        assert(a1[(q.len() + 1) as int] == " = ["@[1]);
    }
    assert(s[dl + 4] == ' ') by {
        assert(a1[(q.len() + 2) as int] == " = ["@[2]);
    }
    assert(s[dl + 5] == '[') by {
        assert(a1[(q.len() + 3) as int] == " = ["@[3]);
    }
    assert forall|k: int| 0 <= k < plen implies s[dl + 6 + k] == (#[trigger] paths_toml(ps)[k])
        by {
        assert(a2[a1.len() + k] == paths_toml(ps)[k]);
        assert(s[a1.len() + k] == a2[a1.len() + k]);
    }
    assert(s[dl + 6 + plen] == ']') by {
        assert(s[a2.len() as int] == "]"@[0]);
    }
    // the grammar walk
    crate::toml_doc::lemma_ws_end_value(s, 0, 0);
    crate::toml_doc::lemma_parse_string_at(s, 0, d);
    assert(crate::toml_doc::spec_parse_key(s, 0) == Some((d, dl + 2)));
    crate::toml_doc::lemma_ws_end_value(s, dl + 2, dl + 3);
    crate::toml_doc::lemma_ws_end_value(s, dl + 4, dl + 5);
    let v = dl + 5;
    assert(v + 4 <= s.len() ==> s.subrange(v, v + 4) != "true"@) by {
        if v + 4 <= s.len() {
            assert(s.subrange(v, v + 4)[0] == s[v]);
        }
    }
    assert(v + 5 <= s.len() ==> s.subrange(v, v + 5) != "false"@) by {
        if v + 5 <= s.len() {
            assert(s.subrange(v, v + 5)[0] == s[v]);
        }
    }
    assert(ws_end(s, dl + 6) == dl + 6) by {
        if ps.len() > 0 {
            assert(paths_toml(ps)[0] == quote_str(ps[0])[0]);
            assert(s[dl + 6] == '"');
        } else {
            assert(s[dl + 6] == ']');
        }
        crate::toml_doc::lemma_ws_end_value(s, dl + 6, dl + 6);
    }
    lemma_array_parse_at(s, dl + 6, dl + 6, ps);
    assert(spec_parse_str_array(s, dl + 6) == Some((ps, s.len() as int)));
    assert(ws_end(s, s.len() as int) == s.len());
    assert(spec_parse_line(s) == SpecLine::ArrKV(d, ps));
}

/// The `[versions]` header line parses back to its table path.
proof fn lemma_versions_header_parses()
    ensures
        spec_parse_line("[versions]"@) == SpecLine::Header(seq!["versions"@]),
{
    reveal_strlit("[versions]");
    reveal_strlit("versions");
    reveal_strlit("true");
    reveal_strlit("false");
    let s = "[versions]"@;
    assert(s.len() == 10);
    crate::toml_doc::lemma_ws_end_value(s, 0, 0);
    assert(s[0] == '[');
    assert(s[1] == 'v');
    crate::toml_doc::lemma_ws_end_value(s, 1, 1);
    assert(s[2] == 'e');
    assert(s[3] == 'r');
    assert(s[4] == 's');
    assert(s[5] == 'i');
    assert(s[6] == 'o');
    assert(s[7] == 'n');
    assert(s[8] == 's');
    assert(s[9] == ']');
    crate::toml_doc::lemma_bare_end_value(s, 1, 9);
    assert(s.subrange(1, 9) =~= "versions"@);
    assert(crate::toml_doc::spec_parse_key(s, 1) == Some(("versions"@, 9int)));
    crate::toml_doc::lemma_ws_end_value(s, 9, 9);
    assert(crate::toml_doc::spec_parse_dotted(s, 1) == Some((seq!["versions"@], 9int)));
    assert(ws_end(s, 10) == 10);
    assert(spec_parse_line(s) == SpecLine::Header(seq!["versions"@]));
}


/// An entry's serialized form is its line plus a newline.
proof fn lemma_entry_toml_split(e: (Seq<char>, Seq<Seq<char>>))
    ensures
        entry_toml(e) == entry_line(e) + "\n"@,
{
    reveal_strlit("]");
    reveal_strlit("\n");
    reveal_strlit("]\n");
    assert("]\n"@ =~= "]"@ + "\n"@);
    assert(entry_toml(e) =~= entry_line(e) + "\n"@);
}

/// An entry's line holds no newline.
proof fn lemma_entry_line_no_newline(e: (Seq<char>, Seq<Seq<char>>))
    requires
        clean_str(e.0),
        clean_paths(e.1),
    ensures
        forall|k: int| 0 <= k < entry_line(e).len() ==> (#[trigger] entry_line(e)[k]) != '\n',
{
    reveal_strlit("\"");
    reveal_strlit(" = [");
    reveal_strlit("]");
    lemma_paths_toml_no_newline(e.1);
    let q = quote_str(e.0);
    let dl = e.0.len() as int;
    let el = entry_line(e);
    assert forall|k: int| 0 <= k < el.len() implies (#[trigger] el[k]) != '\n' by {
        let a1 = q + " = ["@;
        let a2 = a1 + paths_toml(e.1);
        assert(el == a2 + "]"@);
        if k < q.len() {
            assert(el[k] == q[k]);
            if k == 0 || k == 1 + dl {
            } else {
                assert(q[k] == e.0[k - 1]);
            }
        } else if k < a1.len() {
            assert(el[k] == " = ["@[k - q.len()]);
        } else if k < a2.len() {
            assert(el[k] == paths_toml(e.1)[k - a1.len()]);
        } else {
            assert(el[k] == "]"@[0]);
        }
    }
}

/// The serialized entries split into exactly one line per entry.
proof fn lemma_entries_lines(s: Seq<char>, p: int, v: Seq<(Seq<char>, Seq<Seq<char>>)>)
    requires
        0 <= p <= s.len(),
        s.skip(p) == entries_toml(v),
        forall|i: int|
            0 <= i < v.len() ==> clean_str((#[trigger] v[i]).0) && clean_paths(v[i].1),
    ensures
        crate::toml_doc::spec_lines_from(s, p) =~= v.map_values(
            |e: (Seq<char>, Seq<Seq<char>>)| entry_line(e),
        ),
    decreases v.len(),
{
    reveal_strlit("\n");
    if v.len() == 0 {
        assert(s.skip(p).len() == 0);
        assert(p == s.len());
    } else {
        let e0 = v[0];
        assert(clean_str(e0.0) && clean_paths(e0.1));
        lemma_entry_toml_split(e0);
        lemma_entry_line_no_newline(e0);
        let el = entry_line(e0);
        let ln = el.len() as int;
        let rest = entries_toml(v.skip(1));
        assert(entries_toml(v) == entry_toml(e0) + rest);
        assert(s.skip(p) == (el + "\n"@) + rest);
        assert forall|k: int| 0 <= k < ln implies s[p + k] == el[k] by {
            assert(s.skip(p)[k] == ((el + "\n"@) + rest)[k]);
            assert(s.skip(p)[k] == s[p + k]);
        }
        assert(s.skip(p)[ln] == ((el + "\n"@) + rest)[ln]);
        assert(s[p + ln] == '\n');
        assert forall|k2: int| p <= k2 < p + ln implies s[k2] != '\n' by {
            assert(s[p + (k2 - p)] == el[k2 - p]);
        }
        crate::toml_doc::lemma_find_char_value(s, '\n', p, p + ln);
        assert(s.subrange(p, p + ln) =~= el) by {
            assert(forall|k: int| 0 <= k < ln ==> #[trigger] s.subrange(p, p + ln)[k] == s[p + k]);
        }
        assert(s.skip(p + ln + 1) =~= rest) by {
            assert(forall|k: int|
                0 <= k < rest.len() ==> #[trigger] s.skip(p + ln + 1)[k] == s[p + ln + 1 + k]);
            assert(forall|k: int|
                0 <= k < rest.len() ==> #[trigger] s.skip(p)[ln + 1 + k] == ((el + "\n"@)
                    + rest)[ln + 1 + k]);
            assert(forall|k: int|
                0 <= k < rest.len() ==> #[trigger] s.skip(p)[ln + 1 + k] == s[p + ln + 1 + k]);
            assert(forall|k: int|
                0 <= k < rest.len() ==> ((el + "\n"@) + rest)[ln + 1 + k] == (#[trigger] rest[k]));
        }
        assert(forall|i: int|
            0 <= i < v.skip(1).len() ==> clean_str((#[trigger] v.skip(1)[i]).0) && clean_paths(
                v.skip(1)[i].1,
            )) by {
            assert(forall|i: int|
                0 <= i < v.skip(1).len() ==> (#[trigger] v.skip(1)[i]) == v[i + 1]);
        }
        lemma_entries_lines(s, p + ln + 1, v.skip(1));
        let f = |e: (Seq<char>, Seq<Seq<char>>)| entry_line(e);
        assert(crate::toml_doc::spec_lines_from(s, p) =~= seq![el] + crate::toml_doc::spec_lines_from(
            s,
            p + ln + 1,
        ));
        assert forall|i: int| 0 <= i < v.len() implies #[trigger] v.map_values(f)[i] == (
        seq![el] + v.skip(1).map_values(f))[i] by {
            if i > 0 {
                assert(v.skip(1).map_values(f)[i - 1] == f(v.skip(1)[i - 1]));
                assert(v.skip(1)[i - 1] == v[i]);
            }
        }
        assert(v.map_values(f) =~= seq![el] + v.skip(1).map_values(f));
    }
}

/// Folding the entry lines back, in a `[versions]` table, recovers the
/// entries after the accumulator.
proof fn lemma_fold_arr(w: Seq<(Seq<char>, Seq<Seq<char>>)>, acc: Seq<(Seq<char>, Seq<Seq<char>>)>)
    requires
        hist_wf(acc + w),
    ensures
        hist_fold(
            w.map_values(|e: (Seq<char>, Seq<Seq<char>>)| SpecLine::ArrKV(e.0, e.1)),
            acc,
            true,
        ) == Some(acc + w),
    decreases w.len(),
{
    let g = |e: (Seq<char>, Seq<Seq<char>>)| SpecLine::ArrKV(e.0, e.1);
    if w.len() == 0 {
        assert(acc + w =~= acc);
    } else {
        let d = w[0].0;
        let lines = w.map_values(g);
        assert(lines[0] == SpecLine::ArrKV(w[0].0, w[0].1));
        assert(find_index(acc, d) == -1) by {
            lemma_find_index_from_props(acc, d, 0);
            if find_index(acc, d) >= 0 {
                let idx = find_index(acc, d);
                assert((acc + w)[idx].0 == acc[idx].0);
                assert((acc + w)[acc.len() as int].0 == d);
            }
        }
        let acc1 = acc.push((d, w[0].1));
        assert(acc1 =~= acc.push(w[0]));
        assert(acc1 + w.skip(1) =~= acc + w);
        lemma_fold_arr(w.skip(1), acc1);
        assert(lines.skip(1) =~= w.skip(1).map_values(g)) by {
            assert(forall|i: int|
                0 <= i < w.skip(1).len() ==> #[trigger] w.skip(1).map_values(g)[i] == g(
                    w.skip(1)[i],
                ));
            assert(forall|i: int|
                0 <= i < w.skip(1).len() ==> (#[trigger] w.skip(1)[i]) == w[i + 1]);
            assert(forall|i: int|
                0 <= i < lines.skip(1).len() ==> (#[trigger] lines.skip(1)[i]) == lines[i + 1]);
        }
        assert(hist_fold(lines, acc, true) == hist_fold(lines.skip(1), acc1, true));
        assert(hist_fold(lines.skip(1), acc1, true) == Some(acc1 + w.skip(1)));
    }
}

/// Whole-file round trip: the persisted form of a well-formed ledger whose
/// dates and paths avoid the reserved characters parses back to exactly
/// that ledger.
pub proof fn lemma_history_round_trip(v: Seq<(Seq<char>, Seq<Seq<char>>)>)
    requires
        hist_wf(v),
        forall|i: int|
            0 <= i < v.len() ==> clean_str((#[trigger] v[i]).0) && clean_paths(v[i].1),
    ensures
        spec_parse_history(spec_history_toml(v)) == Some(v),
{
    reveal_strlit("[versions]\n");
    reveal_strlit("[versions]");
    reveal_strlit("\n");
    let text = spec_history_toml(v);
    let hdr = "[versions]\n"@;
    assert(hdr.len() == 11);
    assert(text == hdr + entries_toml(v));
    assert forall|k: int| 0 <= k < 11 implies text[k] == hdr[k] by {}
    assert(text[10] == '\n');
    assert forall|k2: int| 0 <= k2 < 10 implies text[k2] != '\n' by {
        assert(text[k2] == hdr[k2]);
    }
    crate::toml_doc::lemma_find_char_value(text, '\n', 0, 10);
    assert(text.subrange(0, 10) =~= "[versions]"@);
    assert(text.skip(11) =~= entries_toml(v));
    lemma_entries_lines(text, 11, v);
    let f = |e: (Seq<char>, Seq<Seq<char>>)| entry_line(e);
    let g = |e: (Seq<char>, Seq<Seq<char>>)| SpecLine::ArrKV(e.0, e.1);
    assert(crate::toml_doc::spec_lines(text) =~= seq!["[versions]"@] + v.map_values(f)) by {
        assert(crate::toml_doc::spec_lines_from(text, 0) =~= seq![text.subrange(0, 10)]
            + crate::toml_doc::spec_lines_from(text, 11));
    }
    let doc = spec_doc(text);
    lemma_versions_header_parses();
    assert forall|i: int| 0 <= i < v.len() implies #[trigger] doc[1 + i] == g(v[i]) by {
        assert(crate::toml_doc::spec_lines(text)[1 + i] == v.map_values(f)[i]);
        assert(v.map_values(f)[i] == entry_line(v[i]));
        assert(clean_str(v[i].0) && clean_paths(v[i].1));
        lemma_entry_line_parses(v[i]);
        assert(doc[1 + i] == spec_parse_line(entry_line(v[i])));
    }
    assert(doc[0] == SpecLine::Header(seq!["versions"@]));
    assert(crate::manifest::doc_ok(text)) by {
        assert forall|i: int| 0 <= i < doc.len() implies doc[i] != SpecLine::Bad by {
            if i > 0 {
                assert(doc[1 + (i - 1)] == g(v[i - 1]));
            }
        }
    }
    assert(doc.skip(1) =~= v.map_values(g)) by {
        assert(forall|i: int|
            0 <= i < v.len() ==> #[trigger] v.map_values(g)[i] == g(v[i]));
        assert(forall|i: int|
            0 <= i < doc.skip(1).len() ==> (#[trigger] doc.skip(1)[i]) == doc[i + 1]);
        assert forall|i: int| 0 <= i < v.len() implies doc[i + 1] == g(v[i]) by {
            assert(doc[1 + i] == g(v[i]));
        }
    }
    assert(hist_fold(doc, seq![], false) == hist_fold(doc.skip(1), seq![], true)) by {
        reveal_strlit("versions");
        assert(doc[0] == SpecLine::Header(seq!["versions"@]));
        assert(seq!["versions"@].len() == 1 && seq!["versions"@][0] == "versions"@);
    }
    assert(Seq::<(Seq<char>, Seq<Seq<char>>)>::empty() + v =~= v);
    lemma_fold_arr(v, Seq::<(Seq<char>, Seq<Seq<char>>)>::empty());
    assert(hist_fold(doc.skip(1), seq![], true) == Some(v)) by {
        assert(seq![] =~= Seq::<(Seq<char>, Seq<Seq<char>>)>::empty());
    }
}

} // verus!
