use gig::cli::normalize_args;

fn args(v: &[&str]) -> Vec<String> {
    v.iter().map(|s| s.to_string()).collect()
}

#[test]
fn a_bare_url_gets_the_get_subcommand() {
    assert_eq!(
        normalize_args(args(&["gig", "git@github.com:owner/repo.git"])),
        args(&["gig", "get", "git@github.com:owner/repo.git"])
    );
    assert_eq!(
        normalize_args(args(&["gig", "git@github.com:owner/repo.git", "--pull"])),
        args(&["gig", "get", "git@github.com:owner/repo.git", "--pull"])
    );
}

#[test]
fn leading_debug_flags_are_skipped() {
    assert_eq!(
        normalize_args(args(&["gig", "--debug", "git@github.com:owner/repo.git"])),
        args(&["gig", "--debug", "get", "git@github.com:owner/repo.git"])
    );
    assert_eq!(
        normalize_args(args(&["gig", "--debug", "config", "root-dir", "/tmp/somewhere"])),
        args(&["gig", "--debug", "config", "root-dir", "/tmp/somewhere"])
    );
}

#[test]
fn subcommands_and_help_flags_are_left_alone() {
    for word in [
        "get", "config", "list", "ls", "cd", "completion", "shellenv", "version", "help", "-h",
        "--help", "-V", "--version",
    ] {
        assert_eq!(normalize_args(args(&["gig", word])), args(&["gig", word]));
    }
    assert_eq!(normalize_args(args(&["gig"])), args(&["gig"]));
    assert_eq!(normalize_args(args(&["gig", "--debug"])), args(&["gig", "--debug"]));
    assert_eq!(normalize_args(Vec::new()), Vec::<String>::new());
}

#[test]
fn normalizing_twice_changes_nothing_more() {
    for v in [
        args(&["gig", "x"]),
        args(&["gig", "--debug", "--debug", "u"]),
        args(&["gig", "list"]),
    ] {
        let once = normalize_args(v);
        assert_eq!(normalize_args(once.clone()), once);
    }
}
