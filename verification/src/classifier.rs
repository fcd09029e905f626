use vstd::prelude::*;
use crate::text::{lex_sorted, path_under, seq_distinct, sort_paths, view_set, views_of};
use crate::utils::{distinct_membership_filter, distinct_prefix_filter, vec_contains_str};
use crate::vcs::Repo;

verus! {

/// The paths of a desired-state list.
pub open spec fn spec_paths(s: Seq<(String, Repo)>) -> Seq<Seq<char>> {
    s.map_values(|pr: (String, Repo)| pr.0@)
}

/// The paths of a desired-state list, as owned strings.
pub open spec fn paths_strings_of(s: Seq<(String, Repo)>) -> Seq<String> {
    s.map_values(|pr: (String, Repo)| pr.0)
}

/// The paths of a registered-entry list (path paired with stable name).
pub open spec fn reg_paths(s: Seq<(String, String)>) -> Seq<Seq<char>> {
    s.map_values(|pn: (String, String)| pn.0@)
}

/// The paths of an updated-entry list (path, name, desired state).
pub open spec fn upd_paths(s: Seq<(String, String, Repo)>) -> Seq<Seq<char>> {
    s.map_values(|t: (String, String, Repo)| t.0@)
}

/// The index of the entry with path `p` in a desired-state list.
pub open spec fn spec_index_of(s: Seq<(String, Repo)>, p: Seq<char>) -> int {
    choose|i: int| 0 <= i < s.len() && s[i].0@ == p
}

/// The desired state recorded for path `p`.
pub open spec fn repo_for(s: Seq<(String, Repo)>, p: Seq<char>) -> Repo {
    s[spec_index_of(s, p)].1
}

/// The index of the entry with path `p` in a registered-entry list.
pub open spec fn reg_index_of(s: Seq<(String, String)>, p: Seq<char>) -> int {
    choose|i: int| 0 <= i < s.len() && s[i].0@ == p
}

/// The stable name recorded for path `p`.
pub open spec fn name_for(s: Seq<(String, String)>, p: Seq<char>) -> Seq<char> {
    s[reg_index_of(s, p)].1@
}

/// Desired paths with no registered entry.
pub open spec fn new_class(d: Set<Seq<char>>, r: Set<Seq<char>>) -> Set<Seq<char>> {
    d.difference(r)
}

/// Desired paths that already have a registered entry.
pub open spec fn updated_class(d: Set<Seq<char>>, r: Set<Seq<char>>) -> Set<Seq<char>> {
    d.intersect(r)
}

/// Registered paths with no desired entry, restricted to the managed
/// prefix: entries elsewhere in the host repository are never touched.
pub open spec fn removed_class(
    d: Set<Seq<char>>,
    r: Set<Seq<char>>,
    prefix: Seq<char>,
) -> Set<Seq<char>> {
    r.difference(d).filter(|p: Seq<char>| path_under(p, prefix))
}

/// The three disjoint operation classes of one run, each in ascending
/// path order for deterministic execution.
pub struct ClassificationResult {
    /// Desired entries to register anew: path and desired state.
    pub new: Vec<(String, Repo)>,
    /// Registered entries to bring up to date: path, stable name,
    /// desired state.
    pub updated: Vec<(String, String, Repo)>,
    /// Registered entries under the prefix that are no longer desired:
    /// path and stable name.
    pub removed: Vec<(String, String)>,
}

/// Well-formedness of a classification against its inputs.
pub open spec fn classification_ok(
    c: ClassificationResult,
    selected: Seq<(String, Repo)>,
    registered: Seq<(String, String)>,
    prefix: Seq<char>,
) -> bool {
    let d = spec_paths(selected).to_set();
    let r = reg_paths(registered).to_set();
    &&& spec_paths(c.new@).to_set() == new_class(d, r)
    &&& upd_paths(c.updated@).to_set() == updated_class(d, r)
    &&& reg_paths(c.removed@).to_set() == removed_class(d, r, prefix)
    &&& lex_sorted(spec_paths(c.new@)) && seq_distinct(spec_paths(c.new@))
    &&& lex_sorted(upd_paths(c.updated@)) && seq_distinct(upd_paths(c.updated@))
    &&& lex_sorted(reg_paths(c.removed@)) && seq_distinct(reg_paths(c.removed@))
    &&& forall|k: int|
        0 <= k < c.new@.len() ==> (#[trigger] c.new@[k]).1 == repo_for(selected, c.new@[k].0@)
    &&& forall|k: int|
        0 <= k < c.updated@.len() ==> (#[trigger] c.updated@[k]).1@ == name_for(
            registered,
            c.updated@[k].0@,
        ) && c.updated@[k].2 == repo_for(selected, c.updated@[k].0@)
    &&& forall|k: int|
        0 <= k < c.removed@.len() ==> (#[trigger] c.removed@[k]).1@ == name_for(
            registered,
            c.removed@[k].0@,
        )
}

/// The three classes are pairwise disjoint, and together they cover
/// exactly the desired paths plus the registered paths under the
/// prefix.
pub proof fn lemma_classification_partition(
    d: Set<Seq<char>>,
    r: Set<Seq<char>>,
    prefix: Seq<char>,
)
    ensures
        new_class(d, r).disjoint(updated_class(d, r)),
        new_class(d, r).disjoint(removed_class(d, r, prefix)),
        updated_class(d, r).disjoint(removed_class(d, r, prefix)),
        new_class(d, r) + updated_class(d, r) + removed_class(d, r, prefix) == d + r.filter(
            |p: Seq<char>| path_under(p, prefix),
        ),
{
    assert(new_class(d, r) + updated_class(d, r) + removed_class(d, r, prefix) =~= d + r.filter(
        |p: Seq<char>| path_under(p, prefix),
    ));
}


/// Mapping to paths commutes with appending one desired entry.
proof fn lemma_spec_paths_push(s: Seq<(String, Repo)>, x: (String, Repo))
    ensures
        spec_paths(s.push(x)) =~= spec_paths(s).push(x.0@),
{
    assert forall|k: int| 0 <= k < s.len() + 1 implies spec_paths(s.push(x))[k] == spec_paths(
        s,
    ).push(x.0@)[k] by {
        if k < s.len() {
            assert(s.push(x)[k] == s[k]);
        } else {
            assert(s.push(x)[k] == x);
        }
    }
}

/// Mapping to paths commutes with appending one registered entry.
proof fn lemma_reg_paths_push(s: Seq<(String, String)>, x: (String, String))
    ensures
        reg_paths(s.push(x)) =~= reg_paths(s).push(x.0@),
{
    assert forall|k: int| 0 <= k < s.len() + 1 implies reg_paths(s.push(x))[k] == reg_paths(
        s,
    ).push(x.0@)[k] by {
        if k < s.len() {
            assert(s.push(x)[k] == s[k]);
        } else {
            assert(s.push(x)[k] == x);
        }
    }
}

/// Mapping to paths commutes with appending one updated entry.
proof fn lemma_upd_paths_push(s: Seq<(String, String, Repo)>, x: (String, String, Repo))
    ensures
        upd_paths(s.push(x)) =~= upd_paths(s).push(x.0@),
{
    assert forall|k: int| 0 <= k < s.len() + 1 implies upd_paths(s.push(x))[k] == upd_paths(
        s,
    ).push(x.0@)[k] by {
        if k < s.len() {
            assert(s.push(x)[k] == s[k]);
        } else {
            assert(s.push(x)[k] == x);
        }
    }
}

/// The paths of the given entries, as owned strings.
pub fn paths_of_pairs(selected: &Vec<(String, Repo)>) -> (r: Vec<String>)
    ensures
        r@ == paths_strings_of(selected@),
        views_of(r@) == spec_paths(selected@),
{
    let mut out: Vec<String> = Vec::new();
    let mut i: usize = 0;
    while i < selected.len()
        invariant
            i <= selected@.len(),
            out@ =~= paths_strings_of(selected@).subrange(0, i as int),
        decreases selected@.len() - i,
    {
        let ghost old_out = out@;
        out.push(selected[i].0.clone());
        proof {
            assert(out@ == old_out.push(selected@[i as int].0));
            assert(paths_strings_of(selected@)[i as int] == selected@[i as int].0);
            assert(out@ =~= paths_strings_of(selected@).subrange(0, i as int + 1));
        }
        i = i + 1;
    }
    proof {
        assert(paths_strings_of(selected@).subrange(0, i as int) =~= paths_strings_of(selected@));
        assert forall|k: int| 0 <= k < out@.len() implies views_of(out@)[k] == spec_paths(
            selected@,
        )[k] by {
            assert(views_of(out@)[k] == out@[k]@);
            assert(paths_strings_of(selected@)[k] == selected@[k].0);
        }
        assert(views_of(out@) =~= spec_paths(selected@));
    }
    out
}

/// The paths of the given registered entries, as owned strings.
fn paths_of_regs(registered: &Vec<(String, String)>) -> (r: Vec<String>)
    ensures
        views_of(r@) == reg_paths(registered@),
{
    let mut out: Vec<String> = Vec::new();
    let mut i: usize = 0;
    while i < registered.len()
        invariant
            i <= registered@.len(),
            views_of(out@) =~= reg_paths(registered@).subrange(0, i as int),
        decreases registered@.len() - i,
    {
        let ghost old_out = out@;
        out.push(registered[i].0.clone());
        proof {
            assert(out@ == old_out.push(registered@[i as int].0));
            assert(views_of(old_out).len() == old_out.len());
            assert(old_out.len() == i);
            assert forall|k: int| 0 <= k < out@.len() implies views_of(out@)[k] == reg_paths(
                registered@,
            ).subrange(0, i as int + 1)[k] by {
                assert(views_of(out@)[k] == out@[k]@);
                if k < i {
                    assert(out@[k] == old_out[k]);
                    assert(views_of(old_out)[k] == old_out[k]@);
                }
            }
            assert(views_of(out@) =~= reg_paths(registered@).subrange(0, i as int + 1));
        }
        i = i + 1;
    }
    proof {
        assert(reg_paths(registered@).subrange(0, i as int) =~= reg_paths(registered@));
    }
    out
}

/// Looks up the desired state declared for path `p`.
pub fn find_repo(selected: &Vec<(String, Repo)>, p: &str) -> (r: Repo)
    requires
        seq_distinct(spec_paths(selected@)),
        spec_paths(selected@).to_set().contains(p@),
    ensures
        r == repo_for(selected@, p@),
{
    let mut i: usize = 0;
    loop
        invariant
            i <= selected@.len(),
            spec_paths(selected@).to_set().contains(p@),
            seq_distinct(spec_paths(selected@)),
            forall|k: int| 0 <= k < i ==> spec_paths(selected@)[k] != p@,
        decreases selected@.len() - i,
    {
        if i == selected.len() {
            proof {
                let w = choose|w: int|
                    0 <= w < selected@.len() && spec_paths(selected@)[w] == p@;
                assert(false);
            }
        }
        if crate::text::str_eq_str(selected[i].0.as_str(), p) {
            proof {
                assert(spec_paths(selected@)[i as int] == p@);
                let w = spec_index_of(selected@, p@);
                assert(selected@[w].0@ == p@);
                assert(spec_paths(selected@)[w] == p@);
                assert(w == i as int);
            }
            return selected[i].1.clone();
        }
        proof {
            assert(spec_paths(selected@)[i as int] == selected@[i as int].0@);
        }
        i = i + 1;
    }
}

/// Looks up the stable name recorded for path `p`.
fn find_name(registered: &Vec<(String, String)>, p: &str) -> (r: String)
    requires
        seq_distinct(reg_paths(registered@)),
        reg_paths(registered@).to_set().contains(p@),
    ensures
        r@ == name_for(registered@, p@),
{
    let mut i: usize = 0;
    loop
        invariant
            i <= registered@.len(),
            reg_paths(registered@).to_set().contains(p@),
            seq_distinct(reg_paths(registered@)),
            forall|k: int| 0 <= k < i ==> reg_paths(registered@)[k] != p@,
        decreases registered@.len() - i,
    {
        if i == registered.len() {
            proof {
                let w = choose|w: int|
                    0 <= w < registered@.len() && reg_paths(registered@)[w] == p@;
                assert(false);
            }
        }
        if crate::text::str_eq_str(registered[i].0.as_str(), p) {
            proof {
                assert(reg_paths(registered@)[i as int] == p@);
                let w = reg_index_of(registered@, p@);
                assert(registered@[w].0@ == p@);
                assert(reg_paths(registered@)[w] == p@);
                assert(w == i as int);
            }
            return registered[i].1.clone();
        }
        proof {
            assert(reg_paths(registered@)[i as int] == registered@[i as int].0@);
        }
        i = i + 1;
    }
}

/// Diffs the desired set against the registered set, producing the
/// three path-sorted operation classes. Registered entries outside the
/// managed prefix are never proposed for removal.
pub fn classify_submodules(
    selected: &Vec<(String, Repo)>,
    registered: &Vec<(String, String)>,
    prefix: &str,
) -> (c: ClassificationResult)
    requires
        seq_distinct(spec_paths(selected@)),
        seq_distinct(reg_paths(registered@)),
    ensures
        classification_ok(c, selected@, registered@, prefix@),
{
    let sel_paths = paths_of_pairs(selected);
    let reg_path_list = paths_of_regs(registered);

    let new_unsorted = distinct_membership_filter(&sel_paths, &reg_path_list, false);
    let new_sorted = sort_paths(&new_unsorted);

    let upd_unsorted = distinct_membership_filter(&sel_paths, &reg_path_list, true);
    let upd_sorted = sort_paths(&upd_unsorted);

    let rem_diff = distinct_membership_filter(&reg_path_list, &sel_paths, false);
    let rem_unsorted = distinct_prefix_filter(&rem_diff, prefix);
    let rem_sorted = sort_paths(&rem_unsorted);

    let ghost d = spec_paths(selected@).to_set();
    let ghost r = reg_paths(registered@).to_set();

    proof {
        assert(view_set(sel_paths@) == d);
        assert(view_set(reg_path_list@) == r);
        assert(view_set(new_sorted@) =~= d.difference(r)) by {
            assert forall|p: Seq<char>| #[trigger] view_set(new_sorted@).contains(p) implies d.difference(
                r,
            ).contains(p) by {
                assert(view_set(new_unsorted@).contains(p));
            }
            assert forall|p: Seq<char>| d.difference(r).contains(p) implies #[trigger] view_set(
                new_sorted@,
            ).contains(p) by {
                assert(view_set(new_unsorted@).contains(p));
            }
        }
        assert(view_set(upd_sorted@) =~= d.intersect(r)) by {
            assert forall|p: Seq<char>| #[trigger] view_set(upd_sorted@).contains(p) implies d.intersect(
                r,
            ).contains(p) by {
                assert(view_set(upd_unsorted@).contains(p));
            }
            assert forall|p: Seq<char>| d.intersect(r).contains(p) implies #[trigger] view_set(
                upd_sorted@,
            ).contains(p) by {
                assert(view_set(upd_unsorted@).contains(p));
            }
        }
        assert(view_set(rem_sorted@) =~= removed_class(d, r, prefix@)) by {
            assert forall|p: Seq<char>| #[trigger] view_set(rem_sorted@).contains(
                p,
            ) implies removed_class(d, r, prefix@).contains(p) by {
                assert(view_set(rem_unsorted@).contains(p));
                assert(view_set(rem_diff@).contains(p));
            }
            assert forall|p: Seq<char>| removed_class(d, r, prefix@).contains(
                p,
            ) implies #[trigger] view_set(rem_sorted@).contains(p) by {
                assert(r.difference(d).contains(p) && path_under(p, prefix@));
                assert(view_set(rem_diff@).contains(p));
                assert(view_set(rem_unsorted@).contains(p));
            }
        }
    }

    let mut new_entries: Vec<(String, Repo)> = Vec::new();
    let mut i: usize = 0;
    while i < new_sorted.len()
        invariant
            i <= new_sorted@.len(),
            seq_distinct(spec_paths(selected@)),
            view_set(new_sorted@) == d.difference(r),
            d == spec_paths(selected@).to_set(),
            spec_paths(new_entries@) =~= views_of(new_sorted@).subrange(0, i as int),
            forall|k: int|
                0 <= k < new_entries@.len() ==> (#[trigger] new_entries@[k]).1 == repo_for(
                    selected@,
                    new_entries@[k].0@,
                ),
        decreases new_sorted@.len() - i,
    {
        proof {
            assert(views_of(new_sorted@)[i as int] == new_sorted@[i as int]@);
            assert(views_of(new_sorted@).contains(new_sorted@[i as int]@));
            assert(view_set(new_sorted@).contains(new_sorted@[i as int]@));
            assert(d.difference(r).contains(new_sorted@[i as int]@));
            assert(d.contains(new_sorted@[i as int]@));
        }
        let repo = find_repo(selected, new_sorted[i].as_str());
        let entry = (new_sorted[i].clone(), repo);
        let ghost ev = entry;
        let ghost old_entries = new_entries@;
        new_entries.push(entry);
        proof {
            assert(new_entries@ == old_entries.push(ev));
            lemma_spec_paths_push(old_entries, ev);
            assert(views_of(new_sorted@).subrange(0, i as int + 1) =~= views_of(
                new_sorted@,
            ).subrange(0, i as int).push(views_of(new_sorted@)[i as int]));
            assert(spec_paths(new_entries@) =~= views_of(new_sorted@).subrange(0, i as int + 1));
            assert forall|k: int| 0 <= k < new_entries@.len() implies (
            #[trigger] new_entries@[k]).1 == repo_for(selected@, new_entries@[k].0@) by {
                if k < old_entries.len() {
                    assert(new_entries@[k] == old_entries[k]);
                }
            }
        }
        i = i + 1;
    }

    let mut upd_entries: Vec<(String, String, Repo)> = Vec::new();
    let mut j: usize = 0;
    while j < upd_sorted.len()
        invariant
            j <= upd_sorted@.len(),
            seq_distinct(spec_paths(selected@)),
            seq_distinct(reg_paths(registered@)),
            view_set(upd_sorted@) == d.intersect(r),
            d == spec_paths(selected@).to_set(),
            r == reg_paths(registered@).to_set(),
            upd_paths(upd_entries@) =~= views_of(upd_sorted@).subrange(0, j as int),
            forall|k: int|
                0 <= k < upd_entries@.len() ==> (#[trigger] upd_entries@[k]).1@ == name_for(
                    registered@,
                    upd_entries@[k].0@,
                ) && upd_entries@[k].2 == repo_for(selected@, upd_entries@[k].0@),
        decreases upd_sorted@.len() - j,
    {
        proof {
            assert(views_of(upd_sorted@)[j as int] == upd_sorted@[j as int]@);
            assert(views_of(upd_sorted@).contains(upd_sorted@[j as int]@));
            assert(view_set(upd_sorted@).contains(upd_sorted@[j as int]@));
            assert(d.intersect(r).contains(upd_sorted@[j as int]@));
            assert(d.contains(upd_sorted@[j as int]@) && r.contains(upd_sorted@[j as int]@));
        }
        let repo = find_repo(selected, upd_sorted[j].as_str());
        let name = find_name(registered, upd_sorted[j].as_str());
        let entry = (upd_sorted[j].clone(), name, repo);
        let ghost ev = entry;
        let ghost old_entries = upd_entries@;
        upd_entries.push(entry);
        proof {
            assert(upd_entries@ == old_entries.push(ev));
            lemma_upd_paths_push(old_entries, ev);
            assert(views_of(upd_sorted@).subrange(0, j as int + 1) =~= views_of(
                upd_sorted@,
            ).subrange(0, j as int).push(views_of(upd_sorted@)[j as int]));
            assert(upd_paths(upd_entries@) =~= views_of(upd_sorted@).subrange(0, j as int + 1));
            assert forall|k: int| 0 <= k < upd_entries@.len() implies (
            #[trigger] upd_entries@[k]).1@ == name_for(registered@, upd_entries@[k].0@)
                && upd_entries@[k].2 == repo_for(selected@, upd_entries@[k].0@) by {
                if k < old_entries.len() {
                    assert(upd_entries@[k] == old_entries[k]);
                }
            }
        }
        j = j + 1;
    }

    let mut rem_entries: Vec<(String, String)> = Vec::new();
    let mut k: usize = 0;
    while k < rem_sorted.len()
        invariant
            k <= rem_sorted@.len(),
            seq_distinct(reg_paths(registered@)),
            view_set(rem_sorted@) == removed_class(d, r, prefix@),
            r == reg_paths(registered@).to_set(),
            reg_paths(rem_entries@) =~= views_of(rem_sorted@).subrange(0, k as int),
            forall|m: int|
                0 <= m < rem_entries@.len() ==> (#[trigger] rem_entries@[m]).1@ == name_for(
                    registered@,
                    rem_entries@[m].0@,
                ),
        decreases rem_sorted@.len() - k,
    {
        proof {
            assert(views_of(rem_sorted@)[k as int] == rem_sorted@[k as int]@);
            assert(views_of(rem_sorted@).contains(rem_sorted@[k as int]@));
            assert(view_set(rem_sorted@).contains(rem_sorted@[k as int]@));
            assert(removed_class(d, r, prefix@).contains(rem_sorted@[k as int]@));
            assert(r.difference(d).contains(rem_sorted@[k as int]@));
            assert(r.contains(rem_sorted@[k as int]@));
        }
        let name = find_name(registered, rem_sorted[k].as_str());
        let entry = (rem_sorted[k].clone(), name);
        let ghost ev = entry;
        let ghost old_entries = rem_entries@;
        rem_entries.push(entry);
        proof {
            assert(rem_entries@ == old_entries.push(ev));
            lemma_reg_paths_push(old_entries, ev);
            assert(views_of(rem_sorted@).subrange(0, k as int + 1) =~= views_of(
                rem_sorted@,
            ).subrange(0, k as int).push(views_of(rem_sorted@)[k as int]));
            assert(reg_paths(rem_entries@) =~= views_of(rem_sorted@).subrange(0, k as int + 1));
            assert forall|m: int| 0 <= m < rem_entries@.len() implies (
            #[trigger] rem_entries@[m]).1@ == name_for(registered@, rem_entries@[m].0@) by {
                if m < old_entries.len() {
                    assert(rem_entries@[m] == old_entries[m]);
                }
            }
        }
        k = k + 1;
    }

    proof {
        assert(spec_paths(new_entries@) =~= views_of(new_sorted@));
        assert(upd_paths(upd_entries@) =~= views_of(upd_sorted@));
        assert(reg_paths(rem_entries@) =~= views_of(rem_sorted@));
        assert(spec_paths(new_entries@).to_set() =~= new_class(d, r));
        assert(upd_paths(upd_entries@).to_set() =~= updated_class(d, r));
        assert(reg_paths(rem_entries@).to_set() =~= removed_class(d, r, prefix@));
    }
    ClassificationResult { new: new_entries, updated: upd_entries, removed: rem_entries }
}

} // verus!
