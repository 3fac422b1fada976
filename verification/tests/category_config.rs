use gig::category_config::{add, key, list, parse_entry_line, patterns, replace, validate_name};
use gig::error::GigError;
use gig::git_cmd::{GitCommand, GitOutput};

fn ok(stdout: &str) -> GitOutput {
    GitOutput {
        success: true,
        code: Some(0),
        stdout: stdout.to_string(),
        stderr: String::new(),
    }
}

fn strings(v: &[&str]) -> Vec<String> {
    v.iter().map(|s| s.to_string()).collect()
}

#[test]
fn key_names_the_pattern_entry() {
    assert_eq!(key("personal"), "gig.category.personal.pattern");
}

#[test]
fn listing_parses_each_line_in_order_including_empty_values() {
    let cats = list(&ok(
        "gig.category.personal.pattern ^github\\.com/merikan/\ngig.category.oneoff.pattern \ngig.category.bare.pattern\n",
    ))
    .unwrap();
    let pairs: Vec<(String, String)> = cats.into_iter().map(|c| (c.name, c.pattern)).collect();
    assert_eq!(
        pairs,
        vec![
            ("personal".into(), r"^github\.com/merikan/".into()),
            ("oneoff".into(), String::new()),
            ("bare".into(), String::new()),
        ]
    );
}

#[test]
fn listing_with_no_categories_is_empty() {
    let none = GitOutput { success: false, code: Some(1), stdout: String::new(), stderr: String::new() };
    assert!(list(&none).unwrap().is_empty());
    let bad = GitOutput { success: false, code: Some(128), stdout: String::new(), stderr: "x".into() };
    assert!(list(&bad).unwrap_err().message().starts_with("git config --get-regexp "));
}

#[test]
fn an_unexpected_key_is_an_error_naming_it() {
    assert_eq!(
        parse_entry_line("gig.root-dir /tmp").unwrap_err(),
        GigError::UnexpectedConfigKey { key: "gig.root-dir".into() }
    );
    assert_eq!(
        list(&ok("gig.category.a.pattern x\nweird y\n")).unwrap_err().message(),
        "unexpected `git config --get-regexp` key: weird"
    );
    let c = parse_entry_line("gig.category.a.b.pattern p q").unwrap();
    assert_eq!((c.name.as_str(), c.pattern.as_str()), ("a.b", "p q"));
}

#[test]
fn patterns_reads_every_value() {
    assert_eq!(patterns("oss", &ok("a\nb\n")).unwrap(), strings(&["a", "b"]));
    let none = GitOutput { success: false, code: Some(1), stdout: String::new(), stderr: String::new() };
    assert!(patterns("oss", &none).unwrap().is_empty());
}

#[test]
fn unsafe_names_are_rejected() {
    for name in ["../etc/personal", "foo..bar", "foo\\bar", "../etc", "a/b", ".."] {
        assert_eq!(
            validate_name(name),
            Err(GigError::UnsafeCategoryName { name: name.into() }),
            "{name}"
        );
    }
    for name in ["personal", "a.b", ".hidden", "x."] {
        assert!(validate_name(name).is_ok(), "{name}");
    }
    assert_eq!(
        validate_name("../etc").unwrap_err().message(),
        "category name '../etc' is not path-safe - it must not contain `/`, `\\`, or `..`"
    );
}

#[test]
fn replace_uses_a_plain_set_for_single_values() {
    let k = "gig.category.personal.pattern".to_string();
    assert_eq!(
        replace("personal", &strings(&["old"]), &strings(&["new"])).unwrap(),
        vec![GitCommand::ConfigSetGlobal { key: k.clone(), value: "new".into() }]
    );
    assert_eq!(
        replace("personal", &strings(&["a", "b"]), &strings(&["new"])).unwrap(),
        vec![GitCommand::ConfigReplaceAllGlobal { key: k.clone(), value: "new".into() }]
    );
    assert_eq!(
        replace("personal", &[].to_vec(), &strings(&["x", "y", "z"])).unwrap(),
        vec![
            GitCommand::ConfigReplaceAllGlobal { key: k.clone(), value: "x".into() },
            GitCommand::ConfigAddGlobal { key: k.clone(), value: "y".into() },
            GitCommand::ConfigAddGlobal { key: k, value: "z".into() },
        ]
    );
    assert_eq!(
        replace("personal", &Vec::new(), &Vec::new()).unwrap_err().message(),
        "replace requires at least one pattern"
    );
}

#[test]
fn add_skips_patterns_already_present_and_repeats() {
    let k = "gig.category.oss.pattern".to_string();
    assert_eq!(
        add("oss", &strings(&["a"]), &strings(&["a", "b", "b", "c"])),
        vec![
            GitCommand::ConfigAddGlobal { key: k.clone(), value: "b".into() },
            GitCommand::ConfigAddGlobal { key: k, value: "c".into() },
        ]
    );
    assert!(add("oss", &strings(&["a", "b"]), &strings(&["b", "a"])).is_empty());
}

#[test]
fn adding_the_same_patterns_twice_writes_nothing_the_second_time() {
    let existing = strings(&["a"]);
    let offered = strings(&["b", "a", "c"]);
    let first = add("oss", &existing, &offered);
    let mut after = existing.clone();
    for c in &first {
        if let GitCommand::ConfigAddGlobal { value, .. } = c {
            after.push(value.clone());
        }
    }
    assert_eq!(after, strings(&["a", "b", "c"]));
    assert!(add("oss", &after, &offered).is_empty());
}
