use std::path::PathBuf;

use gig::destination::{destination_path, join_path};
use gig::url_parser;

#[test]
fn destination_mirrors_the_parsed_url_structure() {
    let root_dir = "/root";
    let cases: &[(&str, &str)] = &[
        (
            "git@github.com:owner/repo.git",
            "/root/github.com/owner/repo",
        ),
        (
            "https://github.com/owner/repo",
            "/root/github.com/owner/repo",
        ),
        (
            "https://gitlab.com/group/subgroup/repo",
            "/root/gitlab.com/group/subgroup/repo",
        ),
        (
            "https://gitlab.com/group/subgroup/deeper/repo.git",
            "/root/gitlab.com/group/subgroup/deeper/repo",
        ),
        ("git@git.sr.ht:~user/repo", "/root/git.sr.ht/~user/repo"),
        ("git@example.com:repo.git", "/root/example.com/repo"),
    ];

    for (url, expected) in cases {
        let parsed = url_parser::parse(url).expect("valid url");
        assert_eq!(
            PathBuf::from(destination_path(root_dir, &parsed)),
            PathBuf::from(expected),
            "destination for `{url}`"
        );
    }
}

#[test]
fn join_follows_path_push() {
    assert_eq!(join_path("/root", "a"), "/root/a");
    assert_eq!(join_path("/root/", "a"), "/root/a");
    assert_eq!(join_path("", "a"), "a");
    assert_eq!(join_path("/root", "/etc"), "/etc");
    for (base, part) in [("/root", "a"), ("/root/", "a"), ("rel", "x"), ("/root", "/abs")] {
        assert_eq!(
            PathBuf::from(join_path(base, part)),
            PathBuf::from(base).join(part)
        );
    }
}

#[test]
fn destination_is_the_root_slash_the_normalized_path() {
    let parsed = url_parser::parse("https://gitlab.com/group/subgroup/repo.git").unwrap();
    assert_eq!(
        destination_path("/home/me/code", &parsed),
        format!("/home/me/code/{}", parsed.normalized_path())
    );
}

#[test]
fn a_trailing_slash_on_root_dir_is_not_doubled() {
    let parsed = url_parser::parse("git@github.com:owner/repo.git").unwrap();
    assert_eq!(destination_path("/root/", &parsed), "/root/github.com/owner/repo");
}
