use vstd::prelude::*;
use vstd::string::*;
use crate::errors::EngineError;
use crate::text::{view_set, views_of, seq_distinct};
use crate::utils::{check_disjoint, check_subset, distinct_membership_filter, views_disjoint, views_subset_of};

verus! {

/// The set of paths named by an optional filter list; an absent filter
/// names no path.
pub open spec fn filter_set(o: Option<Vec<String>>) -> Set<Seq<char>> {
    match o {
        Some(v) => view_set(v@),
        None => Set::empty(),
    }
}

/// The final desired-path set of a run: the `only` list when present,
/// otherwise every declared path, minus the `ignore` list.
pub open spec fn selected_set(
    declared: Seq<String>,
    only: Option<Vec<String>>,
    ignore: Option<Vec<String>>,
) -> Set<Seq<char>> {
    (match only {
        Some(names) => view_set(names@),
        None => view_set(declared),
    }).difference(filter_set(ignore))
}

/// Resolves the final set of desired repository paths from the declared
/// list and the two optional filters.
///
/// The two filters are mutually exclusive; every filter entry must name
/// a declared path; and no path may be both selected and ignored. The
/// result holds each selected path exactly once.
pub fn select_repos(
    declared: &Vec<String>,
    only: &Option<Vec<String>>,
    ignore: &Option<Vec<String>>,
) -> (r: Result<Vec<String>, EngineError>)
    ensures
        r matches Ok(sel) ==> {
            &&& view_set(sel@) == selected_set(declared@, *only, *ignore)
            &&& seq_distinct(views_of(sel@))
            &&& !(only is Some && ignore is Some)
        },
        (only is Some && ignore is Some) ==> (r matches Err(e) && e is Configuration),
        r is Ok ==> (ignore matches Some(ig) ==> views_subset_of(ig@, declared@)),
        r is Ok ==> (only matches Some(names) ==> views_subset_of(names@, declared@)),
        r matches Err(e) ==> (e is Configuration || e is Selection),
        !(only is Some && ignore is Some) ==> ((r is Ok) <==> {
            &&& (ignore matches Some(ig) ==> views_subset_of(ig@, declared@))
            &&& (only matches Some(names) ==> views_subset_of(names@, declared@))
            &&& (only matches Some(names) ==> (ignore matches Some(ig) ==> views_disjoint(
                names@,
                ig@,
            )))
        }),
{
    if only.is_some() && ignore.is_some() {
        return Err(
            EngineError::Configuration(
                String::from_str("the only and ignore filters are mutually exclusive"),
            ),
        );
    }
    let empty: Vec<String> = Vec::new();
    let ignore_list: &Vec<String> = match ignore {
        Some(v) => v,
        None => &empty,
    };
    match check_subset(declared, ignore_list) {
        Ok(_) => (),
        Err(e) => {
            return Err(e);
        },
    }
    match only {
        Some(names) => {
            match check_subset(declared, names) {
                Ok(_) => (),
                Err(e) => {
                    return Err(e);
                },
            }
            match check_disjoint(names, ignore_list) {
                Ok(_) => (),
                Err(e) => {
                    return Err(e);
                },
            }
            let sel = distinct_membership_filter(names, ignore_list, false);
            proof {
                assert(view_set(sel@) =~= selected_set(declared@, *only, *ignore));
            }
            Ok(sel)
        },
        None => {
            let sel = distinct_membership_filter(declared, ignore_list, false);
            proof {
                assert(view_set(sel@) =~= selected_set(declared@, *only, *ignore));
            }
            Ok(sel)
        },
    }
}

} // verus!
