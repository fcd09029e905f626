use vstd::prelude::*;
use vstd::string::*;
use crate::errors::EngineError;
use crate::text::str_eq_str;

verus! {

/// The options of one run: the repository-list file, the destination
/// prefix, the two mutually exclusive selection filters, and the
/// global flags.
#[derive(Debug)]
pub struct Opts {
    /// The file holding the declared repository list.
    pub repo_file: String,
    /// The directory nested repositories are added under.
    pub prefix: String,
    /// Process only these repositories.
    pub only: Option<Vec<String>>,
    /// Process all repositories except these.
    pub ignore: Option<Vec<String>>,
    /// Do not materialize the files of each nested repository.
    pub no_checkout: bool,
    /// Skip updating existing nested repositories.
    pub skip_existing: bool,
    /// Remove nested repositories that are not in the selection.
    pub sync_selection: bool,
    /// Preview what would be done without making changes.
    pub dry_run: bool,
}

impl Opts {
    /// Whether existing nested repositories should be updated.
    pub fn should_update(&self) -> (r: bool)
        ensures
            r == !self.skip_existing,
    {
        !self.skip_existing
    }

    /// The repositories selected for processing, when a selection was
    /// given.
    pub fn get_selected(&self) -> (r: &Option<Vec<String>>)
        ensures
            r == &self.only,
    {
        &self.only
    }

    /// The repositories excluded from processing, when an exclusion
    /// was given.
    pub fn get_ignored(&self) -> (r: &Option<Vec<String>>)
        ensures
            r == &self.ignore,
    {
        &self.ignore
    }
}

/// The fields collected while walking the argument list.
pub ghost struct ArgsAcc {
    pub repo_file: Seq<char>,
    pub prefix: Seq<char>,
    pub only: Seq<Seq<char>>,
    pub ignore: Seq<Seq<char>>,
    pub no_checkout: bool,
    pub skip_existing: bool,
    pub sync_selection: bool,
    pub dry_run: bool,
}

/// The empty accumulator.
pub open spec fn empty_acc() -> ArgsAcc {
    ArgsAcc {
        repo_file: Seq::empty(),
        prefix: Seq::empty(),
        only: Seq::empty(),
        ignore: Seq::empty(),
        no_checkout: false,
        skip_existing: false,
        sync_selection: false,
        dry_run: false,
    }
}

/// An argument beginning with two dashes is an option.
pub open spec fn looks_like_option(a: Seq<char>) -> bool {
    a.len() >= 2 && a[0] == '-' && a[1] == '-'
}

/// Walks the arguments after the program name: options may take one
/// value, anything else fills the two positional parameters in order.
/// Nothing records a malformed argument list; the result is the
/// accumulator and how many positional parameters were seen.
pub open spec fn parse_args(rest: Seq<Seq<char>>, acc: ArgsAcc, npos: int) -> Option<(ArgsAcc, int)>
    decreases rest.len(),
{
    if rest.len() == 0 {
        Some((acc, npos))
    } else {
        let a = rest[0];
        if a == "--only"@ {
            if rest.len() < 2 {
                None
            } else {
                parse_args(rest.skip(2), ArgsAcc { only: acc.only.push(rest[1]), ..acc }, npos)
            }
        } else if a == "--ignore"@ {
            if rest.len() < 2 {
                None
            } else {
                parse_args(rest.skip(2), ArgsAcc { ignore: acc.ignore.push(rest[1]), ..acc }, npos)
            }
        } else if a == "--no-checkout"@ {
            parse_args(rest.skip(1), ArgsAcc { no_checkout: true, ..acc }, npos)
        } else if a == "--skip-existing"@ {
            parse_args(rest.skip(1), ArgsAcc { skip_existing: true, ..acc }, npos)
        } else if a == "--sync-selection"@ {
            parse_args(rest.skip(1), ArgsAcc { sync_selection: true, ..acc }, npos)
        } else if a == "--dry-run"@ {
            parse_args(rest.skip(1), ArgsAcc { dry_run: true, ..acc }, npos)
        } else if looks_like_option(a) {
            None
        } else if npos == 0 {
            parse_args(rest.skip(1), ArgsAcc { repo_file: a, ..acc }, 1)
        } else if npos == 1 {
            parse_args(rest.skip(1), ArgsAcc { prefix: a, ..acc }, 2)
        } else {
            None
        }
    }
}

/// A whole command line parses when its arguments walk through
/// without fault, both positional parameters are present, and the two
/// filters are not both given.
pub open spec fn parse_cmdline(args: Seq<Seq<char>>) -> Option<ArgsAcc> {
    if args.len() == 0 {
        None
    } else {
        match parse_args(args.skip(1), empty_acc(), 0) {
            Some((acc, npos)) => {
                if npos == 2 && !(acc.only.len() > 0 && acc.ignore.len() > 0) {
                    Some(acc)
                } else {
                    None
                }
            },
            None => None,
        }
    }
}

/// The parsed options match the accumulator: same positionals, same
/// flags, and each filter present exactly when its list is non-empty.
pub open spec fn opts_match(o: Opts, acc: ArgsAcc) -> bool {
    &&& o.repo_file@ == acc.repo_file
    &&& o.prefix@ == acc.prefix
    &&& (match o.only {
        Some(v) => acc.only.len() > 0 && crate::text::views_of(v@) == acc.only,
        None => acc.only.len() == 0,
    })
    &&& (match o.ignore {
        Some(v) => acc.ignore.len() > 0 && crate::text::views_of(v@) == acc.ignore,
        None => acc.ignore.len() == 0,
    })
    &&& o.no_checkout == acc.no_checkout
    &&& o.skip_existing == acc.skip_existing
    &&& o.sync_selection == acc.sync_selection
    &&& o.dry_run == acc.dry_run
}

impl Opts {
    /// Parses a full argument list, program name first. Fails on an
    /// unknown option, an option without its value, missing or extra
    /// positional parameters, and when `--only` and `--ignore` are
    /// both given (they are mutually exclusive).
    pub fn try_parse_from(args: &Vec<String>) -> (r: Result<Opts, EngineError>)
        ensures
            parse_cmdline(crate::text::views_of(args@)) matches Some(acc) ==> (r matches Ok(o)
                && opts_match(o, acc)),
            parse_cmdline(crate::text::views_of(args@)) is None ==> (r matches Err(e)
                && e is Configuration),
    {
        let ghost all = crate::text::views_of(args@);
        if args.len() == 0 {
            return Err(EngineError::Configuration(String::from_str("no arguments")));
        }
        let mut repo_file: Option<String> = None;
        let mut prefix: Option<String> = None;
        let mut only: Vec<String> = Vec::new();
        let mut ignore: Vec<String> = Vec::new();
        let mut no_checkout = false;
        let mut skip_existing = false;
        let mut sync_selection = false;
        let mut dry_run = false;
        let mut npos: usize = 0;
        let mut i: usize = 1;
        proof {
            assert(crate::text::views_of(only@) =~= Seq::<Seq<char>>::empty());
            assert(crate::text::views_of(ignore@) =~= Seq::<Seq<char>>::empty());
            assert(current_acc(
                repo_file,
                prefix,
                only@,
                ignore@,
                no_checkout,
                skip_existing,
                sync_selection,
                dry_run,
            ) == empty_acc());
        }
        while i < args.len()
            invariant
                1 <= i <= args@.len(),
                all == crate::text::views_of(args@),
                npos <= 2,
                npos >= 1 ==> repo_file is Some,
                npos >= 2 ==> prefix is Some,
                parse_args(all.skip(1), empty_acc(), 0) == parse_args(
                    all.skip(i as int),
                    current_acc(
                        repo_file,
                        prefix,
                        only@,
                        ignore@,
                        no_checkout,
                        skip_existing,
                        sync_selection,
                        dry_run,
                    ),
                    npos as int,
                ),
            decreases args@.len() - i,
        {
            proof {
                assert(all.skip(i as int)[0] == all[i as int]);
                assert(all[i as int] == args@[i as int]@);
                assert(all.skip(i as int).skip(1) =~= all.skip(i as int + 1));
            }
            let a = &args[i];
            if str_eq_str(a.as_str(), "--only") {
                if i + 1 >= args.len() {
                    proof {
                        assert(all.skip(i as int).len() < 2);
                        assert(parse_args(all.skip(1), empty_acc(), 0) is None);
                    }
                    return Err(
                        EngineError::Configuration(
                            String::from_str("the only option requires a value"),
                        ),
                    );
                }
                let ghost old_only = only@;
                only.push(args[i + 1].clone());
                proof {
                    crate::text::lemma_views_push(old_only, only@[old_only.len() as int]);
                    assert(all.skip(i as int).skip(2) =~= all.skip(i as int + 2));
                    assert(all.skip(i as int)[1] == all[i as int + 1]);
                }
                i = i + 2;
            } else if str_eq_str(a.as_str(), "--ignore") {
                if i + 1 >= args.len() {
                    proof {
                        assert(all.skip(i as int).len() < 2);
                        assert(parse_args(all.skip(1), empty_acc(), 0) is None);
                    }
                    return Err(
                        EngineError::Configuration(
                            String::from_str("the ignore option requires a value"),
                        ),
                    );
                }
                let ghost old_ignore = ignore@;
                ignore.push(args[i + 1].clone());
                proof {
                    crate::text::lemma_views_push(old_ignore, ignore@[old_ignore.len() as int]);
                    assert(all.skip(i as int).skip(2) =~= all.skip(i as int + 2));
                    assert(all.skip(i as int)[1] == all[i as int + 1]);
                }
                i = i + 2;
            } else if str_eq_str(a.as_str(), "--no-checkout") {
                no_checkout = true;
                i = i + 1;
            } else if str_eq_str(a.as_str(), "--skip-existing") {
                skip_existing = true;
                i = i + 1;
            } else if str_eq_str(a.as_str(), "--sync-selection") {
                sync_selection = true;
                i = i + 1;
            } else if str_eq_str(a.as_str(), "--dry-run") {
                dry_run = true;
                i = i + 1;
            } else {
                let l = a.as_str().unicode_len();
                let is_opt = l >= 2 && a.as_str().get_char(0) == '-' && a.as_str().get_char(1)
                    == '-';
                if is_opt {
                    proof {
                        assert(looks_like_option(all[i as int]));
                        assert(parse_args(all.skip(1), empty_acc(), 0) is None);
                    }
                    return Err(
                        EngineError::Configuration(String::from_str("unknown option")),
                    );
                }
                proof {
                    assert(!looks_like_option(all[i as int]));
                }
                if npos == 0 {
                    repo_file = Some(a.clone());
                    npos = 1;
                } else if npos == 1 {
                    prefix = Some(a.clone());
                    npos = 2;
                } else {
                    proof {
                        assert(parse_args(all.skip(1), empty_acc(), 0) is None);
                    }
                    return Err(
                        EngineError::Configuration(
                            String::from_str("unexpected extra argument"),
                        ),
                    );
                }
                i = i + 1;
            }
        }
        proof {
            assert(all.skip(i as int).len() == 0);
        }
        if npos != 2 {
            return Err(
                EngineError::Configuration(
                    String::from_str("a repository file and a prefix are required"),
                ),
            );
        }
        if only.len() > 0 && ignore.len() > 0 {
            return Err(
                EngineError::Configuration(
                    String::from_str("the only and ignore options are mutually exclusive"),
                ),
            );
        }
        let repo_file = match repo_file {
            Some(f) => f,
            None => {
                return Err(
                    EngineError::Configuration(String::from_str("missing repository file")),
                );
            },
        };
        let prefix = match prefix {
            Some(p) => p,
            None => {
                return Err(EngineError::Configuration(String::from_str("missing prefix")));
            },
        };
        let only_opt = if only.len() > 0 {
            Some(only)
        } else {
            None
        };
        let ignore_opt = if ignore.len() > 0 {
            Some(ignore)
        } else {
            None
        };
        Ok(
            Opts {
                repo_file,
                prefix,
                only: only_opt,
                ignore: ignore_opt,
                no_checkout,
                skip_existing,
                sync_selection,
                dry_run,
            },
        )
    }
}

/// The accumulator standing for the parser's current state.
pub open spec fn current_acc(
    repo_file: Option<String>,
    prefix: Option<String>,
    only: Seq<String>,
    ignore: Seq<String>,
    no_checkout: bool,
    skip_existing: bool,
    sync_selection: bool,
    dry_run: bool,
) -> ArgsAcc {
    ArgsAcc {
        repo_file: match repo_file {
            Some(f) => f@,
            None => Seq::empty(),
        },
        prefix: match prefix {
            Some(p) => p@,
            None => Seq::empty(),
        },
        only: crate::text::views_of(only),
        ignore: crate::text::views_of(ignore),
        no_checkout,
        skip_existing,
        sync_selection,
        dry_run,
    }
}

} // verus!
