use gig::category_config::Category;
use gig::clone_plan::{
    autocd_enabled, candidate_destinations, cd_override, destination_for, existing_clone_state,
    expand_tilde, find_existing_clone, get_action, parse_autocd, resolve_destination_root,
    root_dir, route, DestinationState, GetAction,
};
use gig::destination::same_path;
use gig::repo_walk::{children, walk_step, WalkStep};
use gig::error::GigError;
use gig::url_parser::parse;

fn category(name: &str, pattern: &str) -> Category {
    Category { name: name.to_string(), pattern: pattern.to_string() }
}

#[test]
fn a_matching_category_routes_under_root_dir_category() {
    let parsed = parse("git@github.com:merikan/gig.git").unwrap();
    let cats = vec![category("personal", r"^github\.com/merikan/")];
    assert_eq!(
        resolve_destination_root("/r", &parsed, None, &cats, None).unwrap(),
        "/r/personal"
    );
    let other = parse("git@github.com:someone-else/repo.git").unwrap();
    assert_eq!(resolve_destination_root("/r", &other, None, &cats, None).unwrap(), "/r");
}

#[test]
fn the_default_category_catches_only_unmatched_urls() {
    let cats = vec![
        category("work", r"^gitlab\.company\.com/"),
        category("personal", ""),
    ];
    let work = parse("https://gitlab.company.com/team/service").unwrap();
    let other = parse("git@github.com:someone-else/repo.git").unwrap();
    assert_eq!(
        resolve_destination_root("/r", &work, None, &cats, Some("personal")).unwrap(),
        "/r/work"
    );
    assert_eq!(
        resolve_destination_root("/r", &other, None, &cats, Some("personal")).unwrap(),
        "/r/personal"
    );
}

#[test]
fn the_category_flag_overrides_matching_and_the_default() {
    let cats = vec![
        category("personal", r"^github\.com/"),
        category("work", ""),
    ];
    let p = parse("git@github.com:someone-else/repo.git").unwrap();
    assert_eq!(
        resolve_destination_root("/r", &p, Some("work"), &cats, Some("personal")).unwrap(),
        "/r/work"
    );
}

#[test]
fn an_undeclared_category_flag_errors() {
    let p = parse("git@github.com:merikan/gig.git").unwrap();
    let err = resolve_destination_root("/r", &p, Some("nope"), &Vec::new(), None).unwrap_err();
    assert_eq!(err, GigError::CategoryNotDeclared { name: "nope".into() });
    assert_eq!(
        err.message(),
        "category 'nope' is not declared. Run `gig config category nope <pattern>` to declare it."
    );
}

#[test]
fn an_invalid_pattern_aborts_even_with_an_override() {
    let cats = vec![category("broken", "("), category("work", "")];
    let p = parse("git@github.com:merikan/gig.git").unwrap();
    let err = resolve_destination_root("/r", &p, Some("work"), &cats, None).unwrap_err();
    assert!(matches!(err, GigError::InvalidPattern { ref name, .. } if name == "broken"));
}

#[test]
fn candidates_are_the_default_path_then_every_category_path() {
    let p = parse("git@github.com:merikan/gig.git").unwrap();
    let cats = vec![category("personal", "x"), category("oneoff", "")];
    assert_eq!(
        candidate_destinations("/r", &p, &cats),
        vec![
            "/r/github.com/merikan/gig".to_string(),
            "/r/personal/github.com/merikan/gig".to_string(),
            "/r/oneoff/github.com/merikan/gig".to_string(),
        ]
    );
}

#[test]
fn the_first_cloned_candidate_wins() {
    let c = vec!["a".to_string(), "b".to_string(), "c".to_string()];
    assert_eq!(find_existing_clone(&c, &vec![false, true, true]), Some("b".into()));
    assert_eq!(find_existing_clone(&c, &vec![false, false, false]), None);
    assert_eq!(find_existing_clone(&c, &vec![false]), None);
    let p = parse("git@github.com:merikan/gig.git").unwrap();
    assert_eq!(destination_for(Some("x".into()), "/r/personal", &p), "x");
    assert_eq!(
        destination_for(None, "/r/personal", &p),
        "/r/personal/github.com/merikan/gig"
    );
}

#[test]
fn destination_states_follow_the_git_dir() {
    assert_eq!(existing_clone_state(false, false), DestinationState::Free);
    assert_eq!(existing_clone_state(true, true), DestinationState::AlreadyCloned);
    assert_eq!(existing_clone_state(true, false), DestinationState::Occupied);
    assert_eq!(DestinationState::Free.label(), "free");
    assert_eq!(DestinationState::AlreadyCloned.label(), "already-cloned");
    assert_eq!(DestinationState::Occupied.label(), "occupied");
}

#[test]
fn get_never_clones_into_an_occupied_destination() {
    let p = parse("git@github.com:owner/repo.git").unwrap();
    let d = "/r/github.com/owner/repo";
    assert_eq!(
        get_action(d, DestinationState::Free, false, "/r", &p).unwrap(),
        GetAction::Clone { destination: d.into() }
    );
    assert_eq!(
        get_action(d, DestinationState::AlreadyCloned, true, "/r", &p).unwrap(),
        GetAction::Pull { destination: d.into() }
    );
    assert_eq!(
        get_action(d, DestinationState::AlreadyCloned, false, "/r", &p).unwrap(),
        GetAction::Report { destination: d.into(), note: None }
    );
    assert_eq!(
        get_action(d, DestinationState::AlreadyCloned, false, "/r/personal", &p).unwrap(),
        GetAction::Report {
            destination: d.into(),
            note: Some("/r/personal/github.com/owner/repo".into())
        }
    );
    let err = get_action(d, DestinationState::Occupied, true, "/r", &p).unwrap_err();
    assert!(err.message().contains("already exists and is not a git repository"));
}

#[test]
fn tilde_expands_against_home() {
    assert_eq!(expand_tilde("~", Some("/home/me")), "/home/me");
    assert_eq!(expand_tilde("~/gig-root", Some("/home/me")), "/home/me/gig-root");
    assert_eq!(expand_tilde("~/gig-root", None), "~/gig-root");
    assert_eq!(expand_tilde("~other/x", Some("/home/me")), "~other/x");
    assert_eq!(expand_tilde("/abs", Some("/home/me")), "/abs");
    assert_eq!(root_dir(Some("~/r".into()), Some("/h")).unwrap(), "/h/r");
    let err = root_dir(None, Some("/h")).unwrap_err();
    assert!(err.message().contains("gig config root-dir <path>"));
}

#[test]
fn autocd_follows_flags_then_config() {
    assert_eq!(cd_override(true, true), Err(GigError::CdConflict));
    assert_eq!(cd_override(true, false), Ok(Some(true)));
    assert_eq!(cd_override(false, true), Ok(Some(false)));
    assert_eq!(cd_override(false, false), Ok(None));
    assert_eq!(autocd_enabled(None, None), Ok(true));
    assert_eq!(autocd_enabled(None, Some("false".into())), Ok(false));
    assert_eq!(autocd_enabled(Some(true), Some("false".into())), Ok(true));
    assert_eq!(
        parse_autocd("yes").unwrap_err().message(),
        "invalid value 'yes' for gig.autocd-into - must be 'true' or 'false'"
    );
    assert_eq!(GigError::CdConflict.message(), "--cd and --no-cd are mutually exclusive");
}

#[test]
fn the_note_compares_paths_component_by_component() {
    let p = parse("git@h:o/n").unwrap();
    // A category named `.` routes to `r/.`, which is the same path as `r`.
    assert_eq!(
        get_action("r/h/o/n", DestinationState::AlreadyCloned, false, "r/.", &p).unwrap(),
        GetAction::Report { destination: "r/h/o/n".into(), note: None }
    );
    assert_eq!(
        get_action("r/h/o/n", DestinationState::AlreadyCloned, false, "r/x", &p).unwrap(),
        GetAction::Report { destination: "r/h/o/n".into(), note: Some("r/x/h/o/n".into()) }
    );
}

#[test]
fn same_path_follows_path_equality() {
    let cases = [
        ("r/./h", "r/h"),
        ("r//h/", "r/h"),
        ("/r/h", "r/h"),
        ("./r", "r"),
        ("./r", "././r"),
        (".", "./"),
        ("r/..", "r"),
        ("", "."),
        ("/", "//"),
        ("a/b", "a/bc"),
    ];
    for (a, b) in cases {
        assert_eq!(same_path(a, b), std::path::Path::new(a) == std::path::Path::new(b), "{a:?} vs {b:?}");
    }
}

#[test]
fn route_reports_the_matched_category() {
    let cats = vec![category("personal", r"^github\.com/merikan/")];
    let p = parse("git@github.com:merikan/gig.git").unwrap();
    let r = route("/r", &p, Some("personal"), &cats, None).unwrap();
    assert_eq!(r.destination_root, "/r/personal");
    assert_eq!(r.matched, Some("personal".to_string()));
    let other = parse("git@github.com:someone/repo.git").unwrap();
    let r = route("/r", &other, None, &cats, Some("personal")).unwrap();
    assert_eq!(r.destination_root, "/r/personal");
    assert_eq!(r.matched, None);
}

#[test]
fn the_walk_lists_repos_and_descends_elsewhere() {
    let rel = vec!["github.com".to_string(), "owner".to_string()];
    assert_eq!(walk_step(&rel, true), WalkStep::Repo { relative: rel.clone() });
    assert_eq!(walk_step(&rel, false), WalkStep::Descend);
    assert_eq!(
        children(&rel, &vec!["a".to_string(), "b".to_string()]),
        vec![
            vec!["github.com".to_string(), "owner".to_string(), "a".to_string()],
            vec!["github.com".to_string(), "owner".to_string(), "b".to_string()],
        ]
    );
    assert!(children(&Vec::new(), &Vec::new()).is_empty());
    assert_eq!(children(&Vec::new(), &vec!["x".to_string()]), vec![vec!["x".to_string()]]);
}
