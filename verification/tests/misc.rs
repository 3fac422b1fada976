use gig::cli::Shell;
use gig::error::GigError;
use gig::repo_walk::{display, find_repos};
use gig::shellenv::script;
use gig::version::string;

fn path(v: &[&str]) -> Vec<String> {
    v.iter().map(|s| s.to_string()).collect()
}

#[test]
fn repos_are_listed_in_path_order() {
    let found = vec![
        path(&["gitlab.com", "group", "subgroup", "repo"]),
        path(&["github.com", "owner", "repo"]),
        path(&["git.sr.ht", "~user", "repo"]),
    ];
    let sorted: Vec<String> = find_repos(found).iter().map(display).collect();
    assert_eq!(
        sorted,
        vec![
            "git.sr.ht/~user/repo",
            "github.com/owner/repo",
            "gitlab.com/group/subgroup/repo"
        ]
    );
}

#[test]
fn path_order_compares_component_by_component() {
    let found = vec![path(&["a-b", "x"]), path(&["a", "z"]), path(&["a"]), path(&["a", "b", "c"])];
    let sorted = find_repos(found.clone());
    let mut expected: Vec<std::path::PathBuf> =
        found.iter().map(|p| p.iter().collect()).collect();
    expected.sort();
    let got: Vec<std::path::PathBuf> = sorted.iter().map(|p| p.iter().collect()).collect();
    assert_eq!(got, expected);
    assert!(find_repos(Vec::new()).is_empty());
}

#[test]
fn display_joins_components_with_forward_slashes() {
    assert_eq!(display(&path(&["personal", "github.com", "merikan", "gig"])), "personal/github.com/merikan/gig");
    assert_eq!(display(&Vec::new()), "");
}

#[test]
fn bash_and_zsh_get_the_same_posix_function() {
    assert_eq!(script(Shell::Bash), script(Shell::Zsh));
    assert!(script(Shell::Bash).contains("gig() {"));
    assert!(script(Shell::Bash).contains("command gig"));
    assert!(script(Shell::Fish).contains("function gig"));
    assert!(script(Shell::Fish).contains("command gig"));
}

#[test]
fn version_text_includes_the_commit() {
    assert_eq!(string("0.1.0", Some("a1b2c3d"), Some(false)), "0.1.0 (a1b2c3d)");
    assert_eq!(string("0.1.0", Some("a1b2c3d"), Some(true)), "0.1.0 (a1b2c3d-dirty)");
    assert_eq!(string("0.1.0", None, Some(true)), "0.1.0 (unknown)");
}

#[test]
fn every_error_has_its_text() {
    let cases: Vec<(GigError, &str)> = vec![
        (GigError::RootDirUnset, "gig.root-dir is not set. Run `gig config root-dir <path>` to set it."),
        (GigError::NoPatterns, "replace requires at least one pattern"),
        (
            GigError::Occupied { destination: "/r/x".into() },
            "/r/x already exists and is not a git repository (no .git directory) - refusing to clone into it",
        ),
        (
            GigError::AddWithFlagOnly { name: "p".into() },
            "--add and --flag-only are mutually exclusive - `config category p` was given both",
        ),
        (
            GigError::PatternWithFlagOnly { name: "p".into() },
            "<pattern> and --flag-only are mutually exclusive - `config category p` was given both",
        ),
        (GigError::AddWithoutPattern, "at least one pattern is required with --add"),
        (
            GigError::DefaultWithNoDefault { name: "p".into() },
            "--default and --no-default are mutually exclusive - `config category p` was given both",
        ),
        (
            GigError::AddWithDefault { name: "p".into() },
            "--add cannot be combined with --default or --no-default - `config category p` was given both",
        ),
        (
            GigError::NameRequired,
            "--add, --flag-only, --default, --no-default, and <pattern> require a category <name>",
        ),
        (
            GigError::InvalidPattern { name: "b".into(), pattern: "(".into(), detail: "d".into() },
            "category 'b' has an invalid pattern `(`: d",
        ),
        (
            GigError::UnsupportedUrl { url: "x".into() },
            "unsupported URL form: `x` (expected `git@host:path[.git]` or `https://host/path[.git]`)",
        ),
    ];
    for (e, text) in cases {
        assert_eq!(e.message(), text);
    }
}
