use gig::category_config::Category;
use gig::category_routing::resolve;
use gig::error::GigError;

fn category(name: &str, pattern: &str) -> Category {
    Category {
        name: name.to_string(),
        pattern: pattern.to_string(),
    }
}

#[test]
fn a_url_matching_exactly_one_category_resolves_to_it() {
    let categories = vec![category("personal", r"^github\.com/merikan/")];

    let result = resolve(&categories, "github.com/merikan/gig").expect("compiles");

    assert_eq!(result.as_deref(), Some("personal"));
}

#[test]
fn no_declared_category_matches_resolves_to_none() {
    let categories = vec![category("personal", r"^github\.com/merikan/")];

    let result = resolve(&categories, "github.com/someone-else/repo").expect("compiles");

    assert_eq!(result, None);
}

#[test]
fn the_first_declared_of_two_overlapping_patterns_wins() {
    let categories = vec![
        category("specific", r"^github\.com/merikan/gig$"),
        category("broad", r"^github\.com/merikan/"),
    ];

    let result = resolve(&categories, "github.com/merikan/gig").expect("compiles");

    assert_eq!(result.as_deref(), Some("specific"));
}

#[test]
fn declaration_order_is_respected_even_when_the_broad_pattern_is_declared_first() {
    let categories = vec![
        category("broad", r"^github\.com/merikan/"),
        category("specific", r"^github\.com/merikan/gig$"),
    ];

    let result = resolve(&categories, "github.com/merikan/gig").expect("compiles");

    assert_eq!(result.as_deref(), Some("broad"));
}

#[test]
fn a_category_with_an_empty_pattern_is_never_auto_matched() {
    let categories = vec![category("oneoff", "")];

    let result = resolve(&categories, "github.com/merikan/gig").expect("compiles");

    assert_eq!(result, None);
}

#[test]
fn an_invalid_regex_errors_naming_the_category_even_if_it_would_not_have_matched() {
    let categories = vec![
        category("broken", "("),
        category("personal", r"^github\.com/merikan/"),
    ];

    let err = resolve(&categories, "gitlab.com/unrelated/repo").expect_err("invalid regex");

    assert!(err.message().contains("broken"));
}

#[test]
fn an_invalid_regex_after_a_matching_one_still_errors() {
    let categories = vec![
        category("personal", r"^github\.com/merikan/"),
        category("broken", "(["),
    ];

    let err = resolve(&categories, "github.com/merikan/gig").expect_err("invalid regex");
    match &err {
        GigError::InvalidPattern { name, pattern, .. } => {
            assert_eq!(name, "broken");
            assert_eq!(pattern, "([");
        }
        other => panic!("unexpected error {other:?}"),
    }
    assert!(err
        .message()
        .starts_with("category 'broken' has an invalid pattern `([`: "));
}

#[test]
fn no_categories_resolve_to_none() {
    assert_eq!(resolve(&Vec::new(), "github.com/a/b").unwrap(), None);
}
