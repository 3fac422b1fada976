//! Regex matching and precedence selection for automatic category routing.
//! Takes the already-enumerated categories (in git-config declaration
//! order, as [`crate::category_config::list`] returns them) and the
//! normalized `host/owner/repo` string a clone targets. The `--category`
//! override is layered on top of this elsewhere.
use vstd::prelude::*;
use vstd::string::*;
use crate::category_config::{category_views, Category};
use crate::error::GigError;
use crate::text::opt_view;
use crate::pattern::{compile, is_match, regex_compiles, regex_is_match, regex_new_error, CompiledPattern};

verus! {

/// A category (name, pattern) that automatic routing picks for `target`:
/// its pattern is non-empty and matches.
pub open spec fn auto_matches(c: (Seq<char>, Seq<char>), target: Seq<char>) -> bool {
    c.1.len() > 0 && regex_is_match(c.1, target)
}

/// Whether every declared pattern compiles.
pub open spec fn all_compile(cs: Seq<(Seq<char>, Seq<char>)>) -> bool {
    forall|j: int| 0 <= j < cs.len() ==> regex_compiles(#[trigger] cs[j].1)
}

/// The name of the first category (in order) that automatic routing picks
/// for `target`, if any.
pub open spec fn first_matching(cs: Seq<(Seq<char>, Seq<char>)>, target: Seq<char>) -> Option<
    Seq<char>,
>
    decreases cs.len(),
{
    if cs.len() == 0 {
        None
    } else if auto_matches(cs[0], target) {
        Some(cs[0].0)
    } else {
        first_matching(cs.drop_first(), target)
    }
}

proof fn lemma_first_matching(cs: Seq<(Seq<char>, Seq<char>)>, target: Seq<char>, i: int)
    requires
        0 <= i <= cs.len(),
        forall|j: int| 0 <= j < i ==> !auto_matches(#[trigger] cs[j], target),
        i < cs.len() ==> auto_matches(cs[i], target),
    ensures
        first_matching(cs, target) == if i < cs.len() {
            Some(cs[i].0)
        } else {
            None::<Seq<char>>
        },
    decreases i,
{
    if cs.len() > 0 && i > 0 {
        assert(!auto_matches(cs[0], target));
        let rest = cs.drop_first();
        assert forall|j: int| 0 <= j < i - 1 implies !auto_matches(#[trigger] rest[j], target) by {
            assert(rest[j] == cs[j + 1]);
        }
        if i < cs.len() {
            assert(rest[i - 1] == cs[i]);
        }
        lemma_first_matching(rest, target, i - 1);
    }
}

/// Compiles every declared category's pattern - including empty ones,
/// which compile trivially - before testing any of them, so an invalid regex
/// in any declared category aborts, naming the first such category in
/// declaration order, even if matching would never reach it. Then returns
/// the name of the first (in declaration order) category whose non-empty
/// pattern matches `match_target`; an empty pattern (a flag-only category)
/// is never auto-matched. `Ok(None)` means no declared category matched.
pub fn resolve(categories: &Vec<Category>, match_target: &str) -> (r: Result<
    Option<String>,
    GigError,
>)
    ensures
        ({
            let cs = category_views(categories@);
            &&& r is Err <==> !all_compile(cs)
            &&& r matches Err(e) ==> exists|i: int|
                0 <= i < cs.len() && !regex_compiles(cs[i].1) && (forall|j: int|
                    0 <= j < i ==> regex_compiles(#[trigger] cs[j].1)) && (e matches GigError::InvalidPattern {
                    name,
                    pattern,
                    detail,
                } && name@ == cs[i].0 && pattern@ == cs[i].1 && regex_new_error(cs[i].1) == Some(
                    detail@,
                ))
            &&& r matches Ok(None) ==> forall|j: int|
                0 <= j < cs.len() ==> !auto_matches(#[trigger] cs[j], match_target@)
            &&& r matches Ok(m) ==> opt_view(m) == first_matching(cs, match_target@)
            &&& r matches Ok(None) ==> forall|j: int|
                0 <= j < cs.len() ==> (#[trigger] cs[j]).1.len() == 0 || !regex_is_match(
                    cs[j].1,
                    match_target@,
                )
            &&& r matches Ok(Some(n)) ==> exists|i: int|
                0 <= i < cs.len() && cs[i].1.len() > 0 && regex_is_match(cs[i].1, match_target@)
                    && n@ == cs[i].0 && forall|j: int|
                    0 <= j < i ==> (#[trigger] cs[j]).1.len() == 0 || !regex_is_match(
                        cs[j].1,
                        match_target@,
                    )
            &&& r matches Ok(Some(n)) ==> exists|i: int|
                0 <= i < cs.len() && auto_matches(cs[i], match_target@) && (forall|j: int|
                    0 <= j < i ==> !auto_matches(#[trigger] cs[j], match_target@)) && n@ == cs[i].0
        }),
{
    let ghost cs = category_views(categories@);
    let n = categories.len();
    let mut compiled: Vec<CompiledPattern> = Vec::new();
    for i in 0..n
        invariant
            n == categories@.len(),
            cs == category_views(categories@),
            compiled@.len() == i,
            forall|j: int| 0 <= j < i ==> regex_compiles(#[trigger] cs[j].1),
            forall|j: int| 0 <= j < i ==> (#[trigger] compiled@[j])@ == cs[j].1,
    {
        let category = &categories[i];
        assert(cs[i as int] == (category.name@, category.pattern@));
        match compile(category.pattern.as_str()) {
            Ok(c) => {
                compiled.push(c);
            },
            Err(detail) => {
                let e = GigError::InvalidPattern {
                    name: category.name.clone(),
                    pattern: category.pattern.clone(),
                    detail,
                };
                assert(!regex_compiles(cs[i as int].1));
                return Err(e);
            },
        }
    }
    assert(all_compile(cs));
    for i in 0..n
        invariant
            n == categories@.len(),
            cs == category_views(categories@),
            compiled@.len() == n,
            all_compile(cs),
            forall|j: int| 0 <= j < n ==> (#[trigger] compiled@[j])@ == cs[j].1,
            forall|j: int| 0 <= j < i ==> !auto_matches(#[trigger] cs[j], match_target@),
    {
        let category = &categories[i];
        assert(cs[i as int] == (category.name@, category.pattern@));
        assert(compiled@[i as int]@ == cs[i as int].1);
        if !category.pattern.as_str().is_empty() && is_match(&compiled[i], match_target) {
            assert(auto_matches(cs[i as int], match_target@));
            proof {
                lemma_first_matching(cs, match_target@, i as int);
                law_routing_picks_first_unanchored_match(cs, match_target@);
            }
            return Ok(Some(category.name.clone()));
        }
        assert(!auto_matches(cs[i as int], match_target@));
    }
    proof {
        lemma_first_matching(cs, match_target@, n as int);
        law_routing_picks_first_unanchored_match(cs, match_target@);
    }
    Ok(None)
}

/// Routing picks the first category, in declaration order, whose pattern
/// is non-empty and - exactly as written, unanchored - matches somewhere in
/// the target (`Regex::is_match`); no category at all when none does.
pub proof fn law_routing_picks_first_unanchored_match(
    cs: Seq<(Seq<char>, Seq<char>)>,
    target: Seq<char>,
)
    ensures
        first_matching(cs, target) is None <==> forall|j: int|
            0 <= j < cs.len() ==> (#[trigger] cs[j]).1.len() == 0 || !regex_is_match(cs[j].1, target),
        first_matching(cs, target) matches Some(n) ==> exists|i: int|
            0 <= i < cs.len() && cs[i].1.len() > 0 && regex_is_match(cs[i].1, target) && n
                == cs[i].0 && forall|j: int|
                0 <= j < i ==> (#[trigger] cs[j]).1.len() == 0 || !regex_is_match(cs[j].1, target),
    decreases cs.len(),
{
    if cs.len() > 0 {
        let rest = cs.drop_first();
        law_routing_picks_first_unanchored_match(rest, target);
        assert forall|j: int| 0 <= j < rest.len() implies #[trigger] rest[j] == cs[j + 1] by {}
        if cs[0].1.len() > 0 && regex_is_match(cs[0].1, target) {
            assert(first_matching(cs, target) == Some(cs[0].0));
        } else {
            assert(first_matching(cs, target) == first_matching(rest, target));
            if first_matching(rest, target) is None {
                assert forall|j: int| 0 <= j < cs.len() implies (#[trigger] cs[j]).1.len() == 0
                    || !regex_is_match(cs[j].1, target) by {
                    if j > 0 {
                        assert(cs[j] == rest[j - 1]);
                    }
                }
            } else {
                let n = first_matching(rest, target)->0;
                let i = choose|i: int|
                    0 <= i < rest.len() && rest[i].1.len() > 0 && regex_is_match(rest[i].1, target)
                        && n == rest[i].0 && forall|j: int|
                        0 <= j < i ==> (#[trigger] rest[j]).1.len() == 0 || !regex_is_match(
                            rest[j].1,
                            target,
                        );
                assert(cs[i + 1] == rest[i]);
                assert forall|j: int| 0 <= j < i + 1 implies (#[trigger] cs[j]).1.len() == 0
                    || !regex_is_match(cs[j].1, target) by {
                    if j > 0 {
                        assert(cs[j] == rest[j - 1]);
                    }
                }
                assert(!(forall|j: int|
                    0 <= j < cs.len() ==> (#[trigger] cs[j]).1.len() == 0 || !regex_is_match(
                        cs[j].1,
                        target,
                    ))) by {
                    assert(cs[i + 1].1.len() > 0 && regex_is_match(cs[i + 1].1, target));
                }
            }
        }
    }
}

} // verus!
