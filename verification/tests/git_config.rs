use gig::error::GigError;
use gig::git_cmd::{GitCommand, GitOutput};
use gig::git_config::{
    add_global, get, get_all, plan_step, replace_all_global, set_global, unset_global, PlanStep,
};
use gig::git_ops::{clone, pull};

fn out(success: bool, code: Option<i32>, stdout: &str, stderr: &str) -> GitOutput {
    GitOutput {
        success,
        code,
        stdout: stdout.to_string(),
        stderr: stderr.to_string(),
    }
}

#[test]
fn get_trims_the_value_and_treats_exit_one_as_unset() {
    assert_eq!(
        get("gig.root-dir", &out(true, Some(0), "  /tmp/repos\n", "")).unwrap(),
        Some("/tmp/repos".to_string())
    );
    assert_eq!(get("gig.root-dir", &out(false, Some(1), "", "")).unwrap(), None);
}

#[test]
fn get_propagates_a_real_git_config_error() {
    let err = get(
        "gig.root-dir",
        &out(false, Some(3), "", "fatal: bad config line 3 in file .gitconfig\n"),
    )
    .unwrap_err();
    assert_eq!(
        err.message(),
        "git config --get gig.root-dir failed: fatal: bad config line 3 in file .gitconfig"
    );
}

#[test]
fn get_all_returns_every_value_in_order() {
    assert_eq!(
        get_all("k", &out(true, Some(0), "a\nb\r\n\n", "")).unwrap(),
        vec!["a".to_string(), "b".to_string(), String::new()]
    );
    assert!(get_all("k", &out(false, Some(1), "", "")).unwrap().is_empty());
    assert!(get_all("k", &out(false, None, "", "killed")).is_err());
}

#[test]
fn writes_succeed_exactly_when_git_did() {
    assert!(set_global("k", "v", &out(true, Some(0), "", "")).is_ok());
    assert!(add_global("k", "v", &out(true, Some(0), "", "")).is_ok());
    assert!(replace_all_global("k", "v", &out(true, Some(0), "", "")).is_ok());
    let err = set_global("k", "v", &out(false, Some(255), "", " could not lock config file \n"))
        .unwrap_err();
    assert_eq!(
        err,
        GigError::GitFailed {
            command: vec!["config".into(), "--global".into(), "k".into(), "v".into()],
            stderr: "could not lock config file".into(),
        }
    );
    assert_eq!(
        add_global("k", "v", &out(false, Some(2), "", "e")).unwrap_err().message(),
        "git config --add --global k v failed: e"
    );
    assert_eq!(
        replace_all_global("k", "v", &out(false, Some(2), "", "e")).unwrap_err().message(),
        "git config --replace-all --global k v failed: e"
    );
}

#[test]
fn unset_treats_a_missing_key_as_done() {
    assert!(unset_global("k", &out(true, Some(0), "", "")).is_ok());
    assert!(unset_global("k", &out(false, Some(1), "", "")).is_ok());
    assert!(unset_global("k", &out(false, Some(5), "", "")).is_ok());
    assert_eq!(
        unset_global("k", &out(false, Some(3), "", "bad")).unwrap_err().message(),
        "git config --unset --global k failed: bad"
    );
}

#[test]
fn clone_failure_names_the_invocation() {
    assert!(clone("u", "/d", true).is_ok());
    assert_eq!(clone("u", "/d", false).unwrap_err().message(), "git clone u /d failed");
}

#[test]
fn pull_failure_names_the_destination() {
    assert!(pull("/d", true).is_ok());
    assert_eq!(pull("/d", false).unwrap_err().message(), "git -C /d pull failed");
}

#[test]
fn invocations_have_their_argument_lists() {
    let key = "gig.category.oss.pattern".to_string();
    assert_eq!(
        GitCommand::ConfigAddGlobal { key: key.clone(), value: "p".into() }.args(),
        vec!["config", "--add", "--global", "gig.category.oss.pattern", "p"]
    );
    assert_eq!(
        GitCommand::Pull { destination: "/r/x".into() }.args(),
        vec!["-C", "/r/x", "pull"]
    );
    assert_eq!(
        GitCommand::ConfigGetRegexp { pattern: gig::category_config::ENUMERATE_PATTERN.into() }.args(),
        vec!["config", "--get-regexp", r"^gig\.category\..*\.pattern$"]
    );
}

#[test]
fn a_value_set_reads_back_through_get() {
    assert!(set_global("gig.root-dir", "/tmp/somewhere", &out(true, Some(0), "", "")).is_ok());
    assert_eq!(
        get("gig.root-dir", &out(true, Some(0), "/tmp/somewhere\n", "")).unwrap(),
        Some("/tmp/somewhere".to_string())
    );
}

#[test]
fn a_plan_runs_in_order_and_stops_at_the_first_failed_write() {
    let plan = vec![
        GitCommand::ConfigUnsetGlobal { key: "gig.category.work.default".into() },
        GitCommand::ConfigSetGlobal { key: "gig.category.personal.default".into(), value: "true".into() },
    ];
    assert_eq!(plan_step(&plan, &vec![]), PlanStep::Run { index: 0 });
    let nothing_to_unset = out(false, Some(5), "", "");
    assert_eq!(plan_step(&plan, &vec![nothing_to_unset.clone()]), PlanStep::Run { index: 1 });
    let ok = out(true, Some(0), "", "");
    assert_eq!(plan_step(&plan, &vec![nothing_to_unset.clone(), ok]), PlanStep::Done);
    match plan_step(&plan, &vec![out(false, Some(3), "", "locked\n")]) {
        PlanStep::Failed { error } => {
            assert_eq!(error.message(), "git config --unset --global gig.category.work.default failed: locked")
        }
        other => panic!("{other:?}"),
    }
    match plan_step(&plan, &vec![nothing_to_unset, out(false, Some(1), "", "nope")]) {
        PlanStep::Failed { error } => assert!(error.message().contains("--global gig.category.personal.default true")),
        other => panic!("{other:?}"),
    }
    assert_eq!(plan_step(&Vec::new(), &Vec::new()), PlanStep::Done);
}
