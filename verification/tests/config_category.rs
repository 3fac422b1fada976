use gig::category_config::Category;
use gig::cli::CategoryArgs;
use gig::config_category::{
    declare_if_missing, declared_names, default_key, default_name, run_config_category,
    run_config_category_add, run_config_category_list, run_config_category_replace,
    run_config_category_view, set_default, unset_default, CategoryCommand, DefaultChange,
    PatternChange,
};
use gig::error::GigError;
use gig::git_cmd::GitCommand;

fn strings(v: &[&str]) -> Vec<String> {
    v.iter().map(|s| s.to_string()).collect()
}

fn args(name: Option<&str>, patterns: &[&str], flags: [bool; 4]) -> CategoryArgs {
    CategoryArgs {
        name: name.map(str::to_string),
        patterns: strings(patterns),
        flag_only: flags[0],
        add: flags[1],
        default: flags[2],
        no_default: flags[3],
    }
}

const NONE: [bool; 4] = [false, false, false, false];
const FLAG_ONLY: [bool; 4] = [true, false, false, false];
const ADD: [bool; 4] = [false, true, false, false];
const DEFAULT: [bool; 4] = [false, false, true, false];
const NO_DEFAULT: [bool; 4] = [false, false, false, true];

#[test]
fn forms_are_selected_by_name_patterns_and_flags() {
    assert_eq!(run_config_category(&args(None, &[], NONE)), Ok(CategoryCommand::List));
    assert_eq!(
        run_config_category(&args(Some("personal"), &[], NONE)),
        Ok(CategoryCommand::View { name: "personal".into() })
    );
    assert_eq!(
        run_config_category(&args(Some("oss"), &["p"], ADD)),
        Ok(CategoryCommand::Update {
            name: "oss".into(),
            change: PatternChange::Add { patterns: strings(&["p"]) },
            default: DefaultChange::Keep,
        })
    );
    assert_eq!(
        run_config_category(&args(Some("oneoff"), &[], FLAG_ONLY)),
        Ok(CategoryCommand::Update {
            name: "oneoff".into(),
            change: PatternChange::Replace { patterns: strings(&[""]) },
            default: DefaultChange::Keep,
        })
    );
    assert_eq!(
        run_config_category(&args(Some("personal"), &["^gitlab\\.com/"], DEFAULT)),
        Ok(CategoryCommand::Update {
            name: "personal".into(),
            change: PatternChange::Replace { patterns: strings(&["^gitlab\\.com/"]) },
            default: DefaultChange::Mark,
        })
    );
    assert_eq!(
        run_config_category(&args(Some("personal"), &[], DEFAULT)),
        Ok(CategoryCommand::Update {
            name: "personal".into(),
            change: PatternChange::DeclareIfMissing,
            default: DefaultChange::Mark,
        })
    );
    assert_eq!(
        run_config_category(&args(Some("ghost"), &[], NO_DEFAULT)),
        Ok(CategoryCommand::Update {
            name: "ghost".into(),
            change: PatternChange::Keep,
            default: DefaultChange::Unmark,
        })
    );
}

#[test]
fn conflicting_flags_are_errors() {
    let e = |a: CategoryArgs| run_config_category(&a).unwrap_err().message();
    assert!(e(args(None, &["p"], NONE)).contains("require a category <name>"));
    assert!(e(args(Some("personal"), &["some-pattern"], [true, true, false, false]))
        .contains("mutually exclusive"));
    assert!(e(args(Some("personal"), &["some-pattern"], FLAG_ONLY)).contains("mutually exclusive"));
    assert!(e(args(Some("personal"), &[], ADD)).contains("at least one pattern"));
    assert!(e(args(Some("personal"), &[], [false, false, true, true])).contains("mutually exclusive"));
    assert!(e(args(Some("oss"), &["p"], [false, true, true, false])).contains("--add"));
    assert!(e(args(Some("oss"), &["p"], [false, true, false, true])).contains("--add"));
    assert!(e(args(Some("../etc"), &[], DEFAULT)).contains("../etc"));
    assert!(e(args(Some("../etc"), &[], FLAG_ONLY)).contains("../etc"));
    assert!(e(args(Some("foo..bar"), &["p"], NONE)).contains("foo..bar"));
}

#[test]
fn viewing_an_unsafe_but_declared_name_is_still_allowed() {
    assert_eq!(
        run_config_category(&args(Some("../etc"), &[], NONE)),
        Ok(CategoryCommand::View { name: "../etc".into() })
    );
}

#[test]
fn add_to_an_undeclared_category_errors() {
    assert_eq!(
        run_config_category_add("ghost", &Vec::new(), &strings(&["p"])).unwrap_err(),
        GigError::CategoryNotDeclared { name: "ghost".into() }
    );
    assert_eq!(
        run_config_category_add("oss", &strings(&["a"]), &strings(&["b"])).unwrap(),
        vec![GitCommand::ConfigAddGlobal {
            key: "gig.category.oss.pattern".into(),
            value: "b".into()
        }]
    );
}

#[test]
fn replace_warns_only_when_dropping_a_real_pattern() {
    let (warn, _) =
        run_config_category_replace("personal", &strings(&["a"]), &strings(&["b"])).unwrap();
    assert!(warn);
    let (warn, _) = run_config_category_replace("personal", &Vec::new(), &strings(&["b"])).unwrap();
    assert!(!warn);
    let (warn, _) = run_config_category_replace("oneoff", &strings(&[""]), &strings(&["b"])).unwrap();
    assert!(!warn);
    let (warn, _) =
        run_config_category_replace("personal", &strings(&["a", "b"]), &strings(&["b", "a"])).unwrap();
    assert!(!warn);
    let (warn, _) = run_config_category_replace("personal", &strings(&["a"]), &strings(&[""])).unwrap();
    assert!(warn);
}

#[test]
fn default_alone_declares_only_when_missing() {
    assert!(declare_if_missing("personal", &strings(&["p"])).is_empty());
    assert_eq!(
        declare_if_missing("personal", &Vec::new()),
        vec![GitCommand::ConfigSetGlobal {
            key: "gig.category.personal.pattern".into(),
            value: String::new()
        }]
    );
}

#[test]
fn marking_a_default_demotes_the_previous_one() {
    assert_eq!(default_key("work"), "gig.category.work.default");
    assert_eq!(set_default("personal", Some("personal".into())), (Vec::new(), None));
    assert_eq!(
        set_default("personal", None),
        (
            vec![GitCommand::ConfigSetGlobal {
                key: "gig.category.personal.default".into(),
                value: "true".into()
            }],
            None
        )
    );
    assert_eq!(
        set_default("personal", Some("work".into())),
        (
            vec![
                GitCommand::ConfigUnsetGlobal { key: "gig.category.work.default".into() },
                GitCommand::ConfigSetGlobal {
                    key: "gig.category.personal.default".into(),
                    value: "true".into()
                },
            ],
            Some("work".into())
        )
    );
    assert_eq!(
        unset_default("personal"),
        GitCommand::ConfigUnsetGlobal { key: "gig.category.personal.default".into() }
    );
}

#[test]
fn the_default_is_the_first_name_flagged_true() {
    let names = strings(&["work", "personal", "oss"]);
    assert_eq!(
        default_name(&names, &vec![None, Some("true".into()), Some("true".into())]),
        Some("personal".into())
    );
    assert_eq!(default_name(&names, &vec![Some("false".into()), None, None]), None);
}

#[test]
fn view_and_list_lines() {
    assert_eq!(
        run_config_category_view("oss", &strings(&["a", "b"]), None).unwrap(),
        strings(&["a", "b"])
    );
    assert_eq!(
        run_config_category_view("personal", &strings(&[""]), Some("personal".into())).unwrap(),
        strings(&["\tdefault"])
    );
    assert!(run_config_category_view("ghost", &Vec::new(), None)
        .unwrap_err()
        .message()
        .contains("not declared"));
    let cats = vec![
        Category { name: "oss".into(), pattern: "a".into() },
        Category { name: "oss".into(), pattern: "b".into() },
        Category { name: "oneoff".into(), pattern: String::new() },
    ];
    assert_eq!(
        run_config_category_list(&cats, None),
        strings(&["oss\ta", "oss\tb", "oneoff\t"])
    );
    assert_eq!(
        run_config_category_list(&cats, Some("oneoff".into())),
        strings(&["oss\ta", "oss\tb", "oneoff\t\tdefault"])
    );
}

#[test]
fn declared_names_lists_each_category_once_in_declaration_order() {
    let entry = |name: &str, pattern: &str| Category { name: name.to_string(), pattern: pattern.to_string() };
    let categories = vec![
        entry("oss", r"^github\.com/rust-lang/"),
        entry("oneoff", ""),
        entry("oss", r"^github\.com/tokio-rs/"),
        entry("work", r"^gitlab\.company\.com/"),
    ];
    assert_eq!(declared_names(&categories), strings(&["oss", "oneoff", "work"]));
    assert!(declared_names(&Vec::new()).is_empty());
}
