use vstd::prelude::*;
use crate::errors::{EngineError, SelectionIssue};
use crate::text::{path_starts_with, path_under, seq_distinct, view_set, views_of};

verus! {

/// Whether one of the strings in `v` has the same characters as `x`.
pub fn vec_contains_str(v: &Vec<String>, x: &str) -> (r: bool)
    ensures
        r == view_set(v@).contains(x@),
{
    let mut i: usize = 0;
    while i < v.len()
        invariant
            i <= v@.len(),
            forall|k: int| 0 <= k < i ==> crate::text::views_of(v@)[k] != x@,
        decreases v@.len() - i,
    {
        if crate::text::str_eq_str(v[i].as_str(), x) {
            proof {
                assert(crate::text::views_of(v@)[i as int] == x@);
                assert(crate::text::views_of(v@).contains(x@));
            }
            return true;
        }
        i = i + 1;
    }
    proof {
        if view_set(v@).contains(x@) {
            let k = choose|k: int|
                0 <= k < v@.len() && crate::text::views_of(v@)[k] == x@;
        }
    }
    false
}

/// Every entry of `subset` names an element of `all`.
pub open spec fn views_subset_of(subset: Seq<String>, all: Seq<String>) -> bool {
    forall|i: int| 0 <= i < subset.len() ==> view_set(all).contains(#[trigger] subset[i]@)
}

/// No entry of `lset` also stands in `rset`.
pub open spec fn views_disjoint(lset: Seq<String>, rset: Seq<String>) -> bool {
    forall|i: int| 0 <= i < lset.len() ==> !view_set(rset).contains(#[trigger] lset[i]@)
}

/// Checks that every element of `subset` is declared in `all`.
/// On failure the error lists every unknown entry, not only the first.
pub fn check_subset(all: &Vec<String>, subset: &Vec<String>) -> (r: Result<(), EngineError>)
    ensures
        r is Ok <==> views_subset_of(subset@, all@),
        r matches Err(e) ==> (e matches EngineError::Selection(SelectionIssue::NotFound(miss))
            && miss@.len() > 0 && (forall|j: int|
            0 <= j < miss@.len() ==> !view_set(all@).contains(#[trigger] miss@[j]@) && view_set(
                subset@,
            ).contains(miss@[j]@)) && (forall|i: int|
            0 <= i < subset@.len() && !view_set(all@).contains(#[trigger] subset@[i]@)
                ==> view_set(miss@).contains(subset@[i]@))),
{
    let mut missing: Vec<String> = Vec::new();
    let mut i: usize = 0;
    while i < subset.len()
        invariant
            i <= subset@.len(),
            forall|j: int|
                0 <= j < missing@.len() ==> !view_set(all@).contains(
                    #[trigger] missing@[j]@,
                ) && view_set(subset@).contains(missing@[j]@),
            forall|k: int|
                0 <= k < i && !view_set(all@).contains(#[trigger] subset@[k]@) ==> view_set(
                    missing@,
                ).contains(subset@[k]@),
            missing@.len() == 0 ==> (forall|k: int|
                0 <= k < i ==> view_set(all@).contains(#[trigger] subset@[k]@)),
        decreases subset@.len() - i,
    {
        if !vec_contains_str(all, subset[i].as_str()) {
            let ghost old_missing = missing@;
            missing.push(subset[i].clone());
            proof {
                assert(missing@ == old_missing.push(subset@[i as int]));
                assert(crate::text::views_of(missing@)[old_missing.len() as int] == subset@[
                    i as int
                ]@);
                assert(crate::text::views_of(subset@)[i as int] == subset@[i as int]@);
                assert(view_set(subset@).contains(subset@[i as int]@));
                assert forall|j: int| 0 <= j < missing@.len() implies !view_set(all@).contains(
                    #[trigger] missing@[j]@,
                ) && view_set(subset@).contains(missing@[j]@) by {
                    if j < old_missing.len() {
                        assert(missing@[j] == old_missing[j]);
                    }
                }
                assert forall|k: int|
                    0 <= k < i + 1 && !view_set(all@).contains(
                        #[trigger] subset@[k]@,
                    ) implies view_set(missing@).contains(subset@[k]@) by {
                    if k < i {
                        let w = choose|w: int|
                            0 <= w < old_missing.len() && crate::text::views_of(old_missing)[w]
                                == subset@[k]@;
                        assert(crate::text::views_of(missing@)[w] == subset@[k]@);
                        assert(crate::text::views_of(missing@).contains(subset@[k]@));
                    } else {
                        assert(crate::text::views_of(missing@).contains(subset@[k]@));
                    }
                }
            }
        } else {
            proof {
                assert(view_set(all@).contains(subset@[i as int]@));
            }
        }
        i = i + 1;
    }
    if missing.len() == 0 {
        Ok(())
    } else {
        proof {
            let j = 0int;
            assert(!view_set(all@).contains(missing@[j]@));
            let w = choose|w: int|
                0 <= w < subset@.len() && crate::text::views_of(subset@)[w] == missing@[j]@;
            assert(!view_set(all@).contains(subset@[w]@));
        }
        Err(EngineError::Selection(SelectionIssue::NotFound(missing)))
    }
}

/// Checks that no repository is both selected and skipped.
/// On failure the error lists every entry common to the two filters.
pub fn check_disjoint(lset: &Vec<String>, rset: &Vec<String>) -> (r: Result<(), EngineError>)
    ensures
        r is Ok <==> views_disjoint(lset@, rset@),
        r matches Err(e) ==> (e matches EngineError::Selection(SelectionIssue::Conflicting(both))
            && both@.len() > 0 && (forall|j: int|
            0 <= j < both@.len() ==> view_set(rset@).contains(#[trigger] both@[j]@) && view_set(
                lset@,
            ).contains(both@[j]@)) && (forall|i: int|
            0 <= i < lset@.len() && view_set(rset@).contains(#[trigger] lset@[i]@) ==> view_set(
                both@,
            ).contains(lset@[i]@))),
{
    let mut common: Vec<String> = Vec::new();
    let mut i: usize = 0;
    while i < lset.len()
        invariant
            i <= lset@.len(),
            forall|j: int|
                0 <= j < common@.len() ==> view_set(rset@).contains(
                    #[trigger] common@[j]@,
                ) && view_set(lset@).contains(common@[j]@),
            forall|k: int|
                0 <= k < i && view_set(rset@).contains(#[trigger] lset@[k]@) ==> view_set(
                    common@,
                ).contains(lset@[k]@),
            common@.len() == 0 ==> (forall|k: int|
                0 <= k < i ==> !view_set(rset@).contains(#[trigger] lset@[k]@)),
        decreases lset@.len() - i,
    {
        if vec_contains_str(rset, lset[i].as_str()) {
            let ghost old_common = common@;
            common.push(lset[i].clone());
            proof {
                assert(common@ == old_common.push(lset@[i as int]));
                assert(crate::text::views_of(common@)[old_common.len() as int] == lset@[
                    i as int
                ]@);
                assert(crate::text::views_of(lset@)[i as int] == lset@[i as int]@);
                assert(view_set(lset@).contains(lset@[i as int]@));
                assert forall|j: int| 0 <= j < common@.len() implies view_set(rset@).contains(
                    #[trigger] common@[j]@,
                ) && view_set(lset@).contains(common@[j]@) by {
                    if j < old_common.len() {
                        assert(common@[j] == old_common[j]);
                    }
                }
                assert forall|k: int|
                    0 <= k < i + 1 && view_set(rset@).contains(
                        #[trigger] lset@[k]@,
                    ) implies view_set(common@).contains(lset@[k]@) by {
                    if k < i {
                        let w = choose|w: int|
                            0 <= w < old_common.len() && crate::text::views_of(old_common)[w]
                                == lset@[k]@;
                        assert(crate::text::views_of(common@)[w] == lset@[k]@);
                        assert(crate::text::views_of(common@).contains(lset@[k]@));
                    } else {
                        assert(crate::text::views_of(common@).contains(lset@[k]@));
                    }
                }
            }
        }
        i = i + 1;
    }
    if common.len() == 0 {
        Ok(())
    } else {
        proof {
            let j = 0int;
            assert(view_set(rset@).contains(common@[j]@));
            let w = choose|w: int|
                0 <= w < lset@.len() && crate::text::views_of(lset@)[w] == common@[j]@;
            assert(view_set(rset@).contains(lset@[w]@));
        }
        Err(EngineError::Selection(SelectionIssue::Conflicting(common)))
    }
}

/// Collects the elements of `v` whose membership in `other` equals
/// `keep` (their intersection or their difference), dropping repeated
/// elements, in order of first occurrence.
pub fn distinct_membership_filter(v: &Vec<String>, other: &Vec<String>, keep: bool) -> (r: Vec<
    String,
>)
    ensures
        seq_distinct(views_of(r@)),
        forall|p: Seq<char>|
            #[trigger] view_set(r@).contains(p) <==> view_set(v@).contains(p) && (view_set(
                other@,
            ).contains(p) == keep),
{
    let mut out: Vec<String> = Vec::new();
    let mut i: usize = 0;
    while i < v.len()
        invariant
            i <= v@.len(),
            seq_distinct(views_of(out@)),
            forall|p: Seq<char>|
                #[trigger] view_set(out@).contains(p) <==> view_set(v@.subrange(0, i as int)).contains(
                    p,
                ) && (view_set(other@).contains(p) == keep),
        decreases v@.len() - i,
    {
        let ghost old_out = out@;
        if vec_contains_str(other, v[i].as_str()) == keep && !vec_contains_str(
            &out,
            v[i].as_str(),
        ) {
            out.push(v[i].clone());
            proof {
                assert(out@ == old_out.push(v@[i as int]));
                assert forall|a: int, b: int|
                    0 <= a < b < out@.len() implies views_of(out@)[a] != views_of(out@)[b] by {
                    if b < old_out.len() {
                        assert(views_of(out@)[a] == views_of(old_out)[a]);
                        assert(views_of(out@)[b] == views_of(old_out)[b]);
                    } else {
                        assert(views_of(out@)[b] == v@[i as int]@);
                        assert(views_of(out@)[a] == views_of(old_out)[a]);
                        assert(view_set(old_out).contains(views_of(old_out)[a]));
                    }
                }
            }
        }
        proof {
            assert(v@.subrange(0, i as int + 1) =~= v@.subrange(0, i as int).push(v@[i as int]));
            assert forall|p: Seq<char>| #[trigger]
                view_set(out@).contains(p) implies view_set(v@.subrange(0, i as int + 1)).contains(
                p,
            ) && (view_set(other@).contains(p) == keep) by {
                let k = choose|k: int| 0 <= k < out@.len() && views_of(out@)[k] == p;
                if k < old_out.len() {
                    assert(views_of(out@)[k] == out@[k]@);
                    assert(out@[k] == old_out[k]);
                    assert(views_of(old_out)[k] == old_out[k]@);
                    assert(views_of(old_out).contains(p));
                    assert(view_set(old_out).contains(p));
                    let w = choose|w: int|
                        0 <= w < i && views_of(v@.subrange(0, i as int))[w] == p;
                    assert(views_of(v@.subrange(0, i as int + 1))[w] == p);
                } else {
                    assert(views_of(out@)[k] == v@[i as int]@);
                    assert(views_of(v@.subrange(0, i as int + 1))[i as int] == p);
                }
            }
            assert forall|p: Seq<char>|
                view_set(v@.subrange(0, i as int + 1)).contains(p) && (view_set(
                    other@,
                ).contains(p) == keep) implies #[trigger] view_set(out@).contains(p) by {
                let w = choose|w: int|
                    0 <= w < i + 1 && #[trigger] views_of(v@.subrange(0, i as int + 1))[w] == p;
                if w < i {
                    assert(views_of(v@.subrange(0, i as int))[w] == p);
                    assert(view_set(v@.subrange(0, i as int)).contains(p));
                    assert(view_set(old_out).contains(p));
                    if old_out.len() < out@.len() {
                        let k = choose|k: int|
                            0 <= k < old_out.len() && views_of(old_out)[k] == p;
                        assert(views_of(out@)[k] == p);
                    }
                } else {
                    // p is exactly the element considered this iteration
                    assert(p == v@[i as int]@);
                    if view_set(old_out).contains(p) {
                        let k = choose|k: int|
                            0 <= k < old_out.len() && views_of(old_out)[k] == p;
                        assert(views_of(out@)[k] == p);
                    } else {
                        assert(views_of(out@)[out@.len() - 1] == p);
                    }
                }
            }
        }
        i = i + 1;
    }
    proof {
        assert(v@.subrange(0, i as int) =~= v@);
    }
    out
}


/// Collects the elements of `v` that lie under `prefix` in whole path
/// components, dropping repeated elements, in order of first
/// occurrence.
pub fn distinct_prefix_filter(v: &Vec<String>, prefix: &str) -> (r: Vec<String>)
    ensures
        seq_distinct(views_of(r@)),
        forall|p: Seq<char>|
            #[trigger] view_set(r@).contains(p) <==> view_set(v@).contains(p) && path_under(
                p,
                prefix@,
            ),
{
    let mut out: Vec<String> = Vec::new();
    let mut i: usize = 0;
    while i < v.len()
        invariant
            i <= v@.len(),
            seq_distinct(views_of(out@)),
            forall|p: Seq<char>|
                #[trigger] view_set(out@).contains(p) <==> view_set(v@.subrange(0, i as int)).contains(
                    p,
                ) && path_under(p, prefix@),
        decreases v@.len() - i,
    {
        let ghost old_out = out@;
        if path_starts_with(v[i].as_str(), prefix) && !vec_contains_str(&out, v[i].as_str()) {
            out.push(v[i].clone());
            proof {
                assert(out@ == old_out.push(v@[i as int]));
                assert forall|a: int, b: int|
                    0 <= a < b < out@.len() implies views_of(out@)[a] != views_of(out@)[b] by {
                    if b < old_out.len() {
                        assert(views_of(out@)[a] == views_of(old_out)[a]);
                        assert(views_of(out@)[b] == views_of(old_out)[b]);
                    } else {
                        assert(views_of(out@)[b] == v@[i as int]@);
                        assert(views_of(out@)[a] == views_of(old_out)[a]);
                        assert(view_set(old_out).contains(views_of(old_out)[a]));
                    }
                }
            }
        }
        proof {
            assert(v@.subrange(0, i as int + 1) =~= v@.subrange(0, i as int).push(v@[i as int]));
            assert forall|p: Seq<char>| #[trigger]
                view_set(out@).contains(p) implies view_set(v@.subrange(0, i as int + 1)).contains(
                p,
            ) && path_under(p, prefix@) by {
                let k = choose|k: int| 0 <= k < out@.len() && views_of(out@)[k] == p;
                if k < old_out.len() {
                    assert(views_of(out@)[k] == out@[k]@);
                    assert(out@[k] == old_out[k]);
                    assert(views_of(old_out)[k] == old_out[k]@);
                    assert(views_of(old_out).contains(p));
                    assert(view_set(old_out).contains(p));
                    let w = choose|w: int|
                        0 <= w < i && views_of(v@.subrange(0, i as int))[w] == p;
                    assert(views_of(v@.subrange(0, i as int + 1))[w] == p);
                } else {
                    assert(views_of(out@)[k] == v@[i as int]@);
                    assert(views_of(v@.subrange(0, i as int + 1))[i as int] == p);
                }
            }
            assert forall|p: Seq<char>|
                view_set(v@.subrange(0, i as int + 1)).contains(p) && path_under(
                    p,
                    prefix@,
                ) implies #[trigger] view_set(out@).contains(p) by {
                let w = choose|w: int|
                    0 <= w < i + 1 && #[trigger] views_of(v@.subrange(0, i as int + 1))[w] == p;
                if w < i {
                    assert(views_of(v@.subrange(0, i as int))[w] == p);
                    assert(view_set(v@.subrange(0, i as int)).contains(p));
                    assert(view_set(old_out).contains(p));
                    if old_out.len() < out@.len() {
                        let k = choose|k: int|
                            0 <= k < old_out.len() && views_of(old_out)[k] == p;
                        assert(views_of(out@)[k] == p);
                    }
                } else {
                    // p is exactly the element considered this iteration
                    assert(p == v@[i as int]@);
                    if view_set(old_out).contains(p) {
                        let k = choose|k: int|
                            0 <= k < old_out.len() && views_of(old_out)[k] == p;
                        assert(views_of(out@)[k] == p);
                    } else {
                        assert(views_of(out@)[out@.len() - 1] == p);
                    }
                }
            }
        }
        i = i + 1;
    }
    proof {
        assert(v@.subrange(0, i as int) =~= v@);
    }
    out
}


} // verus!
