use gig::url_parser::{parse, ParsedUrl};

fn parsed(host: &str, path_segments: &[&str], repo_name: &str) -> ParsedUrl {
    ParsedUrl {
        host: host.to_string(),
        path_segments: path_segments.iter().map(ToString::to_string).collect(),
        repo_name: repo_name.to_string(),
    }
}

#[test]
fn valid_urls_parse_into_host_path_and_repo_name() {
    let cases: &[(&str, ParsedUrl)] = &[
        (
            "git@github.com:owner/repo.git",
            parsed("github.com", &["owner"], "repo"),
        ),
        (
            "git@github.com:owner/repo",
            parsed("github.com", &["owner"], "repo"),
        ),
        (
            "https://github.com/owner/repo.git",
            parsed("github.com", &["owner"], "repo"),
        ),
        (
            "https://github.com/owner/repo",
            parsed("github.com", &["owner"], "repo"),
        ),
        (
            "https://gitlab.com/group/subgroup/repo",
            parsed("gitlab.com", &["group", "subgroup"], "repo"),
        ),
        (
            "https://gitlab.com/group/subgroup/deeper/repo.git",
            parsed("gitlab.com", &["group", "subgroup", "deeper"], "repo"),
        ),
        (
            "git@git.sr.ht:~user/repo",
            parsed("git.sr.ht", &["~user"], "repo"),
        ),
        (
            "git@example.com:repo.git",
            parsed("example.com", &[], "repo"),
        ),
    ];

    for (url, expected) in cases {
        assert_eq!(parse(url).as_ref(), Ok(expected), "parsing `{url}`");
    }
}

#[test]
fn unsupported_forms_produce_a_parse_error() {
    let invalid_urls = [
        "ssh://git@github.com/owner/repo.git",
        "git://github.com/owner/repo.git",
        "http://github.com/owner/repo.git",
        "owner/repo",
        "alias:owner/repo",
        "git@github.com",
        "https://github.com",
        "https:///owner/repo",
        "git@:owner/repo",
    ];

    for url in invalid_urls {
        assert!(parse(url).is_err(), "expected `{url}` to be rejected");
    }
}

#[test]
fn empty_segments_are_skipped_and_a_bare_git_suffix_is_rejected() {
    assert_eq!(
        parse("https://github.com//owner///repo.git/"),
        Ok(parsed("github.com", &["owner"], "repo"))
    );
    assert!(parse("https://github.com/owner/.git").is_err());
    assert!(parse("git@github.com:").is_err());
    assert!(parse("").is_err());
}

#[test]
fn only_one_git_suffix_is_stripped() {
    assert_eq!(
        parse("git@h:o/repo.git.git"),
        Ok(parsed("h", &["o"], "repo.git"))
    );
}

#[test]
fn scp_host_ends_at_the_first_colon() {
    assert_eq!(
        parse("git@host:8080:owner/repo"),
        Ok(parsed("host", &["8080:owner"], "repo"))
    );
}

#[test]
fn a_rejected_url_keeps_the_url_and_names_the_accepted_forms() {
    let err = parse("ssh://git@github.com/owner/repo.git").unwrap_err();
    assert_eq!(err.url(), "ssh://git@github.com/owner/repo.git");
    assert_eq!(
        err.message(),
        "unsupported URL form: `ssh://git@github.com/owner/repo.git` (expected `git@host:path[.git]` or `https://host/path[.git]`)"
    );
    assert_eq!(err.to_error().message(), err.message());
}

#[test]
fn normalized_path_joins_host_segments_and_name() {
    let p = parse("https://gitlab.com/group/subgroup/repo.git").unwrap();
    assert_eq!(p.normalized_path(), "gitlab.com/group/subgroup/repo");
    let p = parse("git@example.com:repo.git").unwrap();
    assert_eq!(p.normalized_path(), "example.com/repo");
}

#[test]
fn https_url_round_trips_through_its_parts() {
    let p = parsed("github.com", &["a", "b"], "c");
    let url = format!("https://{}/{}/{}", p.host, p.path_segments.join("/"), p.repo_name);
    assert_eq!(parse(&url), Ok(p.clone()));
    assert_eq!(parse(&format!("{url}.git")), Ok(p));
}
