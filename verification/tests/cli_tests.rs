use vcs2git::cli::Opts;

fn args(list: &[&str]) -> Vec<String> {
    list.iter().map(|s| s.to_string()).collect()
}

#[test]
fn test_opts_parsing() {
    // Test basic argument parsing
    let opts = Opts::try_parse_from(&args(&["vcs2git", "test.repos", "src"])).unwrap();

    assert_eq!(opts.repo_file, "test.repos");
    assert_eq!(opts.prefix, "src");
    assert!(!opts.no_checkout);
    assert!(!opts.skip_existing);
    assert!(opts.only.is_none());
    assert!(opts.ignore.is_none());
    assert!(!opts.sync_selection);
    assert!(!opts.dry_run);
}

#[test]
fn test_new_flags() {
    let opts = Opts::try_parse_from(&args(&[
        "vcs2git",
        "--no-checkout",
        "--skip-existing",
        "--only",
        "repo1",
        "--only",
        "repo2",
        "--sync-selection",
        "test.repos",
        "src",
    ]))
    .unwrap();

    assert!(opts.no_checkout);
    assert!(opts.skip_existing);
    assert!(opts.sync_selection);
    assert_eq!(opts.only.as_ref().unwrap().len(), 2);
    assert!(opts.ignore.is_none());
}

#[test]
fn test_mutually_exclusive_flags() {
    // --only and --ignore are mutually exclusive
    let result = Opts::try_parse_from(&args(&[
        "vcs2git",
        "--only",
        "repo1",
        "--ignore",
        "repo2",
        "test.repos",
        "src",
    ]));
    assert!(result.is_err());
}

#[test]
fn test_unknown_option_is_refused() {
    let result = Opts::try_parse_from(&args(&["vcs2git", "--frobnicate", "test.repos", "src"]));
    assert!(result.is_err());
}

#[test]
fn test_missing_positional_arguments() {
    let result = Opts::try_parse_from(&args(&["vcs2git", "test.repos"]));
    assert!(result.is_err());
}

#[test]
fn test_option_values_collected_in_order() {
    let opts = Opts::try_parse_from(&args(&[
        "vcs2git",
        "--ignore",
        "x",
        "--ignore",
        "y",
        "test.repos",
        "src",
    ]))
    .unwrap();
    assert_eq!(opts.ignore.as_ref().unwrap(), &vec!["x".to_string(), "y".to_string()]);
    assert!(opts.only.is_none());
}
