//! Retention: the set of paths to keep, and the delete sweep over what is
//! on disk.
//!
//! Only channels with a configured keep-count contribute to the keep set;
//! the sweep then deletes every scanned file whose path is not kept.

use vstd::prelude::*;
use crate::history::ChannelHistoryFile;
use crate::strutil::vec_contains_str;
use crate::strutil::views_of;

verus! {

/// `f` was recorded under one of the given dates.
pub open spec fn spec_kept(
    hv: Seq<(Seq<char>, Seq<Seq<char>>)>,
    dates: Seq<Seq<char>>,
    f: Seq<char>,
) -> bool {
    exists|i: int|
        0 <= i < hv.len() && dates.contains(#[trigger] hv[i].0) && hv[i].1.contains(f)
}

/// Add to `keep` every path recorded under one of `dates`.
pub fn collect_kept_paths(h: &ChannelHistoryFile, dates: &Vec<String>, keep: &mut Vec<String>)
    ensures
        forall|f: Seq<char>|
            #[trigger] views_of(final(keep)@).contains(f) <==> (views_of(old(keep)@).contains(f)
                || spec_kept(h@, views_of(dates@), f)),
{
    let ghost hv = h@;
    let ghost dv = views_of(dates@);
    let ghost keep0 = views_of(keep@);
    let mut i: usize = 0;
    while i < h.versions.len()
        invariant
            i <= hv.len(),
            hv == h@,
            dv == views_of(dates@),
            forall|f: Seq<char>|
                #[trigger] views_of(keep@).contains(f) <==> (keep0.contains(f) || spec_kept(
                    hv.take(i as int),
                    dv,
                    f,
                )),
        decreases hv.len() - i,
    {
        let e = &h.versions[i];
        proof {
            assert(hv[i as int] == e@);
        }
        if vec_contains_str(dates, e.date.as_str()) {
            let ghost pv = e@.1;
            let mut j: usize = 0;
            while j < e.files.len()
                invariant
                    j <= pv.len(),
                    pv == e@.1,
                    hv == h@,
                    dv == views_of(dates@),
                    i < hv.len(),
                    hv[i as int] == e@,
                    dv.contains(e@.0),
                    forall|f: Seq<char>|
                        #[trigger] views_of(keep@).contains(f) <==> (keep0.contains(f)
                            || spec_kept(hv.take(i as int), dv, f) || pv.take(
                            j as int,
                        ).contains(f)),
                decreases pv.len() - j,
            {
                proof {
                    assert(pv[j as int] == e.files@[j as int]@);
                }
                let ghost kv0 = views_of(keep@);
                keep.push(e.files[j].clone());
                proof {
                    assert(views_of(keep@) =~= kv0.push(pv[j as int]));
                    crate::strutil::lemma_push_contains(kv0, pv[j as int]);
                    assert(pv.take(j + 1) =~= pv.take(j as int).push(pv[j as int]));
                    crate::strutil::lemma_push_contains(pv.take(j as int), pv[j as int]);
                }
                j += 1;
            }
            proof {
                assert(pv.take(pv.len() as int) =~= pv);
                assert(hv.take(i as int + 1).drop_last() =~= hv.take(i as int));
                assert forall|f: Seq<char>|
                    #[trigger] views_of(keep@).contains(f) <==> (keep0.contains(f) || spec_kept(
                        hv.take(i as int + 1),
                        dv,
                        f,
                    )) by {
                    let t1 = hv.take(i as int + 1);
                    if spec_kept(t1, dv, f) {
                        let q = choose|q: int|
                            0 <= q < t1.len() && dv.contains(#[trigger] t1[q].0)
                                && t1[q].1.contains(f);
                        if q < i {
                            assert(hv.take(i as int)[q] == t1[q]);
                            assert(spec_kept(hv.take(i as int), dv, f));
                        } else {
                            assert(t1[q] == e@);
                        }
                    }
                    if spec_kept(hv.take(i as int), dv, f) {
                        let q = choose|q: int|
                            0 <= q < i && dv.contains(#[trigger] hv.take(i as int)[q].0)
                                && hv.take(i as int)[q].1.contains(f);
                        assert(t1[q] == hv.take(i as int)[q]);
                        assert(spec_kept(t1, dv, f));
                    }
                    if pv.contains(f) {
                        assert(t1[i as int] == e@);
                        assert(spec_kept(t1, dv, f));
                    }
                }
            }
        } else {
            proof {
                assert forall|f: Seq<char>|
                    spec_kept(hv.take(i as int + 1), dv, f) implies spec_kept(
                    hv.take(i as int),
                    dv,
                    f,
                ) by {
                    let t1 = hv.take(i as int + 1);
                    let q = choose|q: int|
                        0 <= q < t1.len() && dv.contains(#[trigger] t1[q].0) && t1[q].1.contains(
                            f,
                        );
                    if q < i {
                        assert(hv.take(i as int)[q] == t1[q]);
                    } else {
                        assert(t1[q] == e@);
                        assert(!dv.contains(e@.0));
                    }
                }
                assert forall|f: Seq<char>|
                    spec_kept(hv.take(i as int), dv, f) implies spec_kept(
                    hv.take(i as int + 1),
                    dv,
                    f,
                ) by {
                    let q = choose|q: int|
                        0 <= q < i && dv.contains(#[trigger] hv.take(i as int)[q].0) && hv.take(
                            i as int,
                        )[q].1.contains(f);
                    assert(hv.take(i as int + 1)[q] == hv.take(i as int)[q]);
                }
            }
        }
        i += 1;
    }
    proof {
        assert(hv.take(hv.len() as int) =~= hv);
    }
}

/// The scanned paths that are not kept, in scan order.
pub open spec fn spec_to_delete(scanned: Seq<Seq<char>>, keep: Seq<Seq<char>>) -> Seq<Seq<char>>
    decreases scanned.len(),
{
    if scanned.len() == 0 {
        seq![]
    } else {
        (if keep.contains(scanned[0]) {
            seq![]
        } else {
            seq![scanned[0]]
        }) + spec_to_delete(scanned.skip(1), keep)
    }
}

/// A path is swept exactly when it was scanned and is not kept.
pub proof fn lemma_to_delete_membership(scanned: Seq<Seq<char>>, keep: Seq<Seq<char>>)
    ensures
        forall|f: Seq<char>|
            #[trigger] spec_to_delete(scanned, keep).contains(f) <==> (scanned.contains(f)
                && !keep.contains(f)),
    decreases scanned.len(),
{
    if scanned.len() > 0 {
        lemma_to_delete_membership(scanned.skip(1), keep);
        let d = spec_to_delete(scanned, keep);
        let rest = spec_to_delete(scanned.skip(1), keep);
        let hd: Seq<Seq<char>> = if keep.contains(scanned[0]) {
            seq![]
        } else {
            seq![scanned[0]]
        };
        assert forall|f: Seq<char>| #[trigger] d.contains(f) implies (scanned.contains(f)
            && !keep.contains(f)) by {
            let q = choose|q: int| 0 <= q < d.len() && #[trigger] d[q] == f;
            if q < hd.len() {
                assert(f == scanned[0]);
            } else {
                assert(rest[q - hd.len()] == f);
                assert(rest.contains(f));
                let q2 = choose|q2: int|
                    0 <= q2 < scanned.skip(1).len() && #[trigger] scanned.skip(1)[q2] == f;
                assert(scanned[q2 + 1] == f);
            }
        }
        assert forall|f: Seq<char>| scanned.contains(f) && !keep.contains(f) implies #[trigger] d
            .contains(f) by {
            let q = choose|q: int| 0 <= q < scanned.len() && #[trigger] scanned[q] == f;
            if q == 0 {
                assert(d[0] == f);
            } else {
                assert(scanned.skip(1)[q - 1] == f);
                assert(scanned.skip(1).contains(f));
                assert(rest.contains(f));
                let q2 = choose|q2: int| 0 <= q2 < rest.len() && #[trigger] rest[q2] == f;
                assert(d[q2 + hd.len()] == f);
            }
        }
    }
}

/// The retention sweep never deletes a kept path, and deletes every scanned
/// path that is not kept.
pub proof fn lemma_retention_safety(scanned: Seq<Seq<char>>, keep: Seq<Seq<char>>)
    ensures
        forall|f: Seq<char>|
            keep.contains(f) ==> !(#[trigger] spec_to_delete(scanned, keep).contains(f)),
        forall|f: Seq<char>|
            scanned.contains(f) && !keep.contains(f) ==> #[trigger] spec_to_delete(
                scanned,
                keep,
            ).contains(f),
{
    lemma_to_delete_membership(scanned, keep);
}

/// Compute the delete list for a scan of the mirror tree.
pub fn files_to_delete(scanned: &Vec<String>, keep: &Vec<String>) -> (r: Vec<String>)
    ensures
        views_of(r@) == spec_to_delete(views_of(scanned@), views_of(keep@)),
{
    let ghost sv = views_of(scanned@);
    let ghost kv = views_of(keep@);
    let mut out: Vec<String> = Vec::new();
    proof {
        assert(sv.skip(0) =~= sv);
        assert(views_of(out@) =~= Seq::<Seq<char>>::empty());
    }
    let mut i: usize = 0;
    while i < scanned.len()
        invariant
            i <= sv.len(),
            sv == views_of(scanned@),
            kv == views_of(keep@),
            spec_to_delete(sv, kv) == views_of(out@) + spec_to_delete(sv.skip(i as int), kv),
        decreases sv.len() - i,
    {
        proof {
            assert(sv.skip(i as int)[0] == sv[i as int]);
            assert(sv[i as int] == scanned@[i as int]@);
            assert(sv.skip(i as int).skip(1) =~= sv.skip(i as int + 1));
        }
        if !vec_contains_str(keep, scanned[i].as_str()) {
            let ghost out0 = views_of(out@);
            out.push(scanned[i].clone());
            proof {
                assert(views_of(out@) =~= out0 + seq![sv[i as int]]);
            }
        }
        proof {
            assert(spec_to_delete(sv, kv) =~= views_of(out@) + spec_to_delete(
                sv.skip(i as int + 1),
                kv,
            ));
        }
        i += 1;
    }
    proof {
        assert(sv.skip(sv.len() as int) =~= Seq::<Seq<char>>::empty());
        assert(spec_to_delete(sv, kv) =~= views_of(out@));
    }
    out
}

} // verus!
