//! The decisions `get` makes: where a URL's clone belongs (category
//! override, pattern routing, default category), which existing clone it
//! recognizes, and what to do with the destination it settles on.
use vstd::prelude::*;
use vstd::string::*;
use crate::category_config::{category_views, Category};
use crate::category_routing::{all_compile, first_matching, resolve, auto_matches};
use crate::destination::{destination_of, destination_path, join_path, path_key, push_path, same_path};
use crate::error::GigError;
use crate::pattern::{regex_compiles, regex_is_match, regex_new_error};
use crate::text::{eq_str, opt_str_view, opt_view};
use crate::url_parser::{normalized, ParsedUrl};

verus! {

/// The git config key holding `root-dir`.
pub const ROOT_DIR_KEY: &'static str = "gig.root-dir";

/// The git config key holding the auto-cd setting.
pub const AUTOCD_KEY: &'static str = "gig.autocd-into";

/// Whether `name` is a declared category's name.
pub open spec fn declared(cs: Seq<(Seq<char>, Seq<char>)>, name: Seq<char>) -> bool {
    exists|i: int| 0 <= i < cs.len() && #[trigger] cs[i].0 == name
}

/// `e` names the first category (in order) whose pattern does not compile,
/// with the regex crate's error text.
pub open spec fn first_invalid_error(e: GigError, cs: Seq<(Seq<char>, Seq<char>)>) -> bool {
    exists|i: int|
        0 <= i < cs.len() && !regex_compiles(cs[i].1) && (forall|j: int|
            0 <= j < i ==> regex_compiles(#[trigger] cs[j].1)) && (e matches GigError::InvalidPattern {
            name,
            pattern,
            detail,
        } && name@ == cs[i].0 && pattern@ == cs[i].1 && regex_new_error(cs[i].1) == Some(detail@))
}

/// The category a clone is placed under: an explicit override wins
/// outright; otherwise the first category whose pattern matches; otherwise
/// the default category, if any.
pub open spec fn chosen_category(
    cs: Seq<(Seq<char>, Seq<char>)>,
    target: Seq<char>,
    category_override: Option<Seq<char>>,
    default_category: Option<Seq<char>>,
) -> Option<Seq<char>> {
    match category_override {
        Some(n) => Some(n),
        None => match first_matching(cs, target) {
            Some(m) => Some(m),
            None => default_category,
        },
    }
}

/// `root` or `root/<category>`.
pub open spec fn category_root(root: Seq<char>, category: Option<Seq<char>>) -> Seq<char> {
    match category {
        Some(c) => push_path(root, c),
        None => root,
    }
}

/// Where `get` routes a URL.
#[derive(Debug, Clone, PartialEq, Eq)]
pub struct Routing {
    /// `root_dir`, or `root_dir/<category>` when a category applies.
    pub destination_root: String,
    /// The category whose pattern matched the URL, if any - whether or not
    /// an override won over it.
    pub matched: Option<String>,
}

/// How `get` routes a URL: the root its clone's destination is built under
/// - `root_dir/<category>` if a category applies, `root_dir` itself
/// otherwise - and the category whose pattern matched, if any. Every declared
/// category's pattern is compiled first, whether or not it is reachable
/// this time - an invalid regex in any of them is an error naming the first
/// such category. An explicit `category_override` (`--category`) wins
/// outright and must name a declared category; absent that, the first
/// category (in declaration order) whose pattern matches the URL's
/// `host/owner/repo` applies; absent a match, `default_category` does.
pub fn route(
    root_dir: &str,
    parsed: &ParsedUrl,
    category_override: Option<&str>,
    categories: &Vec<Category>,
    default_category: Option<&str>,
) -> (r: Result<Routing, GigError>)
    ensures
        ({
            let cs = category_views(categories@);
            let target = normalized(parsed@);
            &&& !all_compile(cs) ==> (r matches Err(e) && first_invalid_error(e, cs))
            &&& all_compile(cs) && category_override is Some && !declared(
                cs,
                opt_str_view(category_override)->0,
            ) ==> (r matches Err(GigError::CategoryNotDeclared { name }) && name@ == opt_str_view(
                category_override,
            )->0)
            &&& all_compile(cs) && (category_override is None || declared(
                cs,
                opt_str_view(category_override)->0,
            )) ==> (r matches Ok(rt) && opt_view(rt.matched) == first_matching(cs, target) && rt.destination_root@ == category_root(
                root_dir@,
                chosen_category(
                    cs,
                    target,
                    opt_str_view(category_override),
                    opt_str_view(default_category),
                ),
            ))
        }),
{
    let ghost cs = category_views(categories@);
    let target = parsed.normalized_path();
    let matched = match resolve(categories, target.as_str()) {
        Ok(m) => m,
        Err(e) => {
            return Err(e);
        },
    };
    let category: Option<String> = match category_override {
        Some(name) => {
            let n = categories.len();
            let mut found = false;
            for i in 0..n
                invariant
                    n == categories@.len(),
                    cs == category_views(categories@),
                    found <==> exists|j: int| 0 <= j < i && #[trigger] cs[j].0 == name@,
            {
                assert(cs[i as int].0 == categories@[i as int].name@);
                if eq_str(categories[i].name.as_str(), name) {
                    found = true;
                }
            }
            if !found {
                return Err(GigError::CategoryNotDeclared { name: name.to_owned() });
            }
            Some(name.to_owned())
        },
        None => match &matched {
            Some(m) => Some(m.clone()),
            None => match default_category {
                Some(d) => Some(d.to_owned()),
                None => None,
            },
        },
    };
    let destination_root = match category {
        Some(c) => join_path(root_dir, c.as_str()),
        None => root_dir.to_owned(),
    };
    Ok(Routing { destination_root, matched })
}

/// The root a clone's destination is built under, as [`route`] decides it.
pub fn resolve_destination_root(
    root_dir: &str,
    parsed: &ParsedUrl,
    category_override: Option<&str>,
    categories: &Vec<Category>,
    default_category: Option<&str>,
) -> (r: Result<String, GigError>)
    ensures
        ({
            let cs = category_views(categories@);
            let target = normalized(parsed@);
            &&& !all_compile(cs) ==> (r matches Err(e) && first_invalid_error(e, cs))
            &&& all_compile(cs) && category_override is Some && !declared(
                cs,
                opt_str_view(category_override)->0,
            ) ==> (r matches Err(GigError::CategoryNotDeclared { name }) && name@ == opt_str_view(
                category_override,
            )->0)
            &&& all_compile(cs) && (category_override is None || declared(
                cs,
                opt_str_view(category_override)->0,
            )) ==> (r matches Ok(d) && d@ == category_root(
                root_dir@,
                chosen_category(
                    cs,
                    target,
                    opt_str_view(category_override),
                    opt_str_view(default_category),
                ),
            ))
        }),
{
    match route(root_dir, parsed, category_override, categories, default_category) {
        Ok(rt) => Ok(rt.destination_root),
        Err(e) => Err(e),
    }
}

/// Every location `get` recognizes as a possible existing clone of a URL:
/// the default `root_dir/host/owner/repo`, then
/// `root_dir/<category>/host/owner/repo` for every declared category (one
/// per listed entry, in order) - whether or not its pattern matches now,
/// since a repo may have been cloned there under a rule that has since
/// changed.
pub fn candidate_destinations(root_dir: &str, parsed: &ParsedUrl, categories: &Vec<Category>) -> (r:
    Vec<String>)
    ensures
        r.deep_view() == seq![destination_of(root_dir@, parsed@)] + category_views(categories@).map_values(
            |c: (Seq<char>, Seq<char>)| destination_of(push_path(root_dir@, c.0), parsed@),
        ),
{
    let ghost rest = category_views(categories@).map_values(
        |c: (Seq<char>, Seq<char>)| destination_of(push_path(root_dir@, c.0), parsed@),
    );
    let mut r: Vec<String> = Vec::new();
    r.push(destination_path(root_dir, parsed));
    let n = categories.len();
    for i in 0..n
        invariant
            n == categories@.len(),
            rest == category_views(categories@).map_values(
                |c: (Seq<char>, Seq<char>)| destination_of(push_path(root_dir@, c.0), parsed@),
            ),
            r.deep_view() == seq![destination_of(root_dir@, parsed@)] + rest.take(i as int),
    {
        let ghost before = r.deep_view();
        let category_root = join_path(root_dir, categories[i].name.as_str());
        r.push(destination_path(category_root.as_str(), parsed));
        assert(r.deep_view() =~= before.push(rest[i as int]));
        assert(rest.take(i + 1) =~= rest.take(i as int).push(rest[i as int]));
    }
    assert(rest.take(n as int) =~= rest);
    r
}

/// The first candidate destination (in the order
/// [`candidate_destinations`] lists them) that is already cloned, given for
/// each candidate whether it holds a `.git` directory. This is what keeps
/// category rule changes non-destructive: an existing clone is found where
/// it actually lives rather than duplicated where routing would now put it.
pub fn find_existing_clone(candidates: &Vec<String>, cloned: &Vec<bool>) -> (r: Option<String>)
    ensures
        ({
            let n = if candidates@.len() < cloned@.len() {
                candidates@.len()
            } else {
                cloned@.len()
            };
            &&& opt_view(r) == first_cloned(candidates.deep_view(), cloned@)
            &&& r is None ==> forall|j: int| 0 <= j < n ==> !#[trigger] cloned@[j]
            &&& r matches Some(d) ==> exists|i: int|
                0 <= i < n && cloned@[i] && d@ == candidates@[i]@ && forall|j: int|
                    0 <= j < i ==> !#[trigger] cloned@[j]
        }),
{
    let n = if candidates.len() < cloned.len() {
        candidates.len()
    } else {
        cloned.len()
    };
    for i in 0..n
        invariant
            n <= candidates@.len(),
            n <= cloned@.len(),
            n == candidates@.len() || n == cloned@.len(),
            forall|j: int| 0 <= j < i ==> !#[trigger] cloned@[j],
    {
        if cloned[i] {
            proof {
                lemma_first_cloned_at(candidates.deep_view(), cloned@, i as int);
            }
            return Some(candidates[i].clone());
        }
    }
    proof {
        lemma_first_cloned_none(candidates.deep_view(), cloned@);
    }
    None
}

/// The destination `get` acts on: the existing clone it found, or else the
/// fresh path under `destination_root`.
pub fn destination_for(existing: Option<String>, destination_root: &str, parsed: &ParsedUrl) -> (r:
    String)
    ensures
        r@ == match existing {
            Some(d) => d@,
            None => destination_of(destination_root@, parsed@),
        },
{
    match existing {
        Some(d) => d,
        None => destination_path(destination_root, parsed),
    }
}

/// What is already at a destination path.
#[derive(Debug, Clone, Copy, PartialEq, Eq, Structural)]
pub enum DestinationState {
    /// Nothing there.
    Free,
    /// A directory holding a `.git` subdirectory.
    AlreadyCloned,
    /// Something else: a stray file, an empty directory, unrelated contents.
    Occupied,
}

/// Classifies a destination from whether it exists and whether it holds a
/// `.git` subdirectory - the sole signal of an existing clone. Anything that
/// exists without one is occupied rather than clonable.
pub fn existing_clone_state(exists: bool, has_git_dir: bool) -> (s: DestinationState)
    ensures
        !exists ==> s == DestinationState::Free,
        exists && has_git_dir ==> s == DestinationState::AlreadyCloned,
        exists && !has_git_dir ==> s == DestinationState::Occupied,
{
    if !exists {
        DestinationState::Free
    } else if has_git_dir {
        DestinationState::AlreadyCloned
    } else {
        DestinationState::Occupied
    }
}

impl DestinationState {
    /// The state's name as diagnostics print it.
    pub fn label(&self) -> (s: &'static str)
        ensures
            s@ == match *self {
                DestinationState::Free => "free"@,
                DestinationState::AlreadyCloned => "already-cloned"@,
                DestinationState::Occupied => "occupied"@,
            },
    {
        match self {
            DestinationState::Free => "free",
            DestinationState::AlreadyCloned => "already-cloned",
            DestinationState::Occupied => "occupied",
        }
    }
}

/// What `get` does with the destination it settled on.
#[derive(Debug, Clone, PartialEq, Eq)]
pub enum GetAction {
    /// Clone the URL into the destination.
    Clone { destination: String },
    /// Pull inside the existing clone.
    Pull { destination: String },
    /// Report the existing clone; `note` is where current category rules
    /// would place a fresh clone, when that differs.
    Report { destination: String, note: Option<String> },
}

/// Decides what `get` does: a free destination is cloned into; an already
/// cloned one is pulled with `--pull` and otherwise reported (noting where
/// current rules would place a fresh clone when that is a different path,
/// compared component by component as `Path` does); an occupied
/// one is an error - `get` never clones into something that exists.
pub fn get_action(
    destination: &str,
    state: DestinationState,
    pull: bool,
    destination_root: &str,
    parsed: &ParsedUrl,
) -> (r: Result<GetAction, GigError>)
    ensures
        state == DestinationState::Occupied ==> (r matches Err(GigError::Occupied { destination: d })
            && d@ == destination@),
        state == DestinationState::Free ==> (r matches Ok(GetAction::Clone { destination: d }) && d@
            == destination@),
        state == DestinationState::AlreadyCloned && pull ==> (r matches Ok(
            GetAction::Pull { destination: d },
        ) && d@ == destination@),
        state == DestinationState::AlreadyCloned && !pull ==> (r matches Ok(
            GetAction::Report { destination: d, note },
        ) && d@ == destination@ && opt_view(note) == if path_key(
            destination_of(destination_root@, parsed@),
        ) == path_key(destination@) {
            None
        } else {
            Some(destination_of(destination_root@, parsed@))
        }),
{
    match state {
        DestinationState::Free => Ok(GetAction::Clone { destination: destination.to_owned() }),
        DestinationState::AlreadyCloned => {
            if pull {
                Ok(GetAction::Pull { destination: destination.to_owned() })
            } else {
                let resolved = destination_path(destination_root, parsed);
                let note = if same_path(resolved.as_str(), destination) {
                    None
                } else {
                    Some(resolved)
                };
                Ok(GetAction::Report { destination: destination.to_owned(), note })
            }
        },
        DestinationState::Occupied => Err(GigError::Occupied { destination: destination.to_owned() }),
    }
}

} // verus!

verus! {

/// `path` with a leading `~` or `~/` expanded to `home` (or left as a
/// literal `~` when the home directory is unknown), the way a shell would.
/// `~user/...` is left untouched.
pub open spec fn tilde_expanded(path: Seq<char>, home: Option<Seq<char>>) -> Seq<char> {
    let h = match home {
        Some(h) => h,
        None => seq!['~'],
    };
    if path == seq!['~'] {
        h
    } else if seq!['~', '/'].is_prefix_of(path) {
        push_path(h, path.skip(2))
    } else {
        path
    }
}

/// Expands a leading `~` or `~/...` to the home directory. git config
/// stores values as opaque strings and never expands `~` itself, so without
/// this a root-dir of `~/gig-root` would be a literal `./~/gig-root`.
pub fn expand_tilde(path: &str, home: Option<&str>) -> (r: String)
    ensures
        r@ == tilde_expanded(path@, opt_str_view(home)),
{
    let v = crate::text::chars_of(path);
    let h: String = match home {
        Some(h) => h.to_owned(),
        None => "~".to_owned(),
    };
    proof {
        reveal_strlit("~");
    }
    assert(h@ == match opt_str_view(home) {
        Some(x) => x,
        None => seq!['~'],
    });
    if v.len() == 1 && v[0] == '~' {
        assert(path@ =~= seq!['~']);
        return h;
    }
    assert(path@ != seq!['~']);
    if v.len() >= 2 && v[0] == '~' && v[1] == '/' {
        assert(seq!['~', '/'].is_prefix_of(path@)) by {
            assert(path@.subrange(0, 2) =~= seq!['~', '/']);
        }
        let rest = crate::text::string_of_range(&v, 2, v.len());
        assert(rest@ =~= path@.skip(2));
        return join_path(h.as_str(), rest.as_str());
    }
    assert(!seq!['~', '/'].is_prefix_of(path@)) by {
        if seq!['~', '/'].is_prefix_of(path@) {
            assert(path@.subrange(0, 2)[0] == '~');
            assert(path@.subrange(0, 2)[1] == '/');
        }
    }
    path.to_owned()
}

/// The configured `root-dir` (as `git config --get gig.root-dir` gave it),
/// tilde-expanded against `home`; unset is the actionable "not set" error
/// every `get`/`list`/`cd` shares.
pub fn root_dir(configured: Option<String>, home: Option<&str>) -> (r: Result<String, GigError>)
    ensures
        configured is None ==> r == Err::<String, GigError>(GigError::RootDirUnset),
        configured matches Some(raw) ==> (r matches Ok(d) && d@ == tilde_expanded(
            raw@,
            opt_str_view(home),
        )),
{
    match configured {
        Some(raw) => Ok(expand_tilde(raw.as_str(), home)),
        None => Err(GigError::RootDirUnset),
    }
}

/// The per-invocation auto-cd override: `--cd` forces it, `--no-cd` skips
/// it, both together are an error, neither leaves the setting in charge.
pub fn cd_override(cd: bool, no_cd: bool) -> (r: Result<Option<bool>, GigError>)
    ensures
        cd && no_cd ==> r == Err::<Option<bool>, GigError>(GigError::CdConflict),
        cd && !no_cd ==> r == Ok::<Option<bool>, GigError>(Some(true)),
        !cd && no_cd ==> r == Ok::<Option<bool>, GigError>(Some(false)),
        !cd && !no_cd ==> r == Ok::<Option<bool>, GigError>(None),
{
    if cd && no_cd {
        Err(GigError::CdConflict)
    } else if cd {
        Ok(Some(true))
    } else if no_cd {
        Ok(Some(false))
    } else {
        Ok(None)
    }
}

/// Reads a `gig.autocd-into` value: exactly `true` or `false`; anything
/// else is rejected.
pub fn parse_autocd(value: &str) -> (r: Result<bool, GigError>)
    ensures
        value@ == "true"@ ==> r == Ok::<bool, GigError>(true),
        value@ == "false"@ ==> r == Ok::<bool, GigError>(false),
        value@ != "true"@ && value@ != "false"@ ==> (r matches Err(GigError::InvalidAutocd { value: v })
            && v@ == value@),
{
    proof {
        reveal_strlit("true");
        reveal_strlit("false");
        assert("true"@.len() != "false"@.len());
    }
    if eq_str(value, "true") {
        Ok(true)
    } else if eq_str(value, "false") {
        Ok(false)
    } else {
        Err(GigError::InvalidAutocd { value: value.to_owned() })
    }
}

/// Whether `get` auto-cds into its destination: the per-invocation
/// override when given, otherwise the configured setting, which defaults
/// to enabled when unset.
pub fn autocd_enabled(override_flag: Option<bool>, configured: Option<String>) -> (r: Result<
    bool,
    GigError,
>)
    ensures
        override_flag matches Some(b) ==> r == Ok::<bool, GigError>(b),
        override_flag is None && configured is None ==> r == Ok::<bool, GigError>(true),
        override_flag is None ==> (configured matches Some(v) ==> (v@ == "true"@ ==> r == Ok::<
            bool,
            GigError,
        >(true))),
        override_flag is None ==> (configured matches Some(v) ==> (v@ == "false"@ ==> r == Ok::<
            bool,
            GigError,
        >(false))),
        override_flag is None ==> (configured matches Some(v) ==> (v@ != "true"@ && v@ != "false"@
            ==> (r matches Err(GigError::InvalidAutocd { value }) && value@ == v@))),
{
    match override_flag {
        Some(b) => Ok(b),
        None => match configured {
            None => Ok(true),
            Some(v) => parse_autocd(v.as_str()),
        },
    }
}

} // verus!

verus! {

/// The first candidate marked cloned, if any.
pub open spec fn first_cloned(candidates: Seq<Seq<char>>, cloned: Seq<bool>) -> Option<Seq<char>>
    decreases candidates.len(),
{
    if candidates.len() == 0 || cloned.len() == 0 {
        None
    } else if cloned[0] {
        Some(candidates[0])
    } else {
        first_cloned(candidates.drop_first(), cloned.drop_first())
    }
}

proof fn lemma_first_cloned_at(candidates: Seq<Seq<char>>, cloned: Seq<bool>, i: int)
    requires
        0 <= i < candidates.len(),
        i < cloned.len(),
        cloned[i],
        forall|j: int| 0 <= j < i ==> !#[trigger] cloned[j],
    ensures
        first_cloned(candidates, cloned) == Some(candidates[i]),
    decreases i,
{
    if i > 0 {
        assert(!cloned[0]);
        let cs = candidates.drop_first();
        let cl = cloned.drop_first();
        assert forall|j: int| 0 <= j < i - 1 implies !#[trigger] cl[j] by {
            assert(cl[j] == cloned[j + 1]);
        }
        lemma_first_cloned_at(cs, cl, i - 1);
    }
}

proof fn lemma_first_cloned_none(candidates: Seq<Seq<char>>, cloned: Seq<bool>)
    requires
        forall|j: int| 0 <= j < candidates.len() && j < cloned.len() ==> !#[trigger] cloned[j],
    ensures
        first_cloned(candidates, cloned) is None,
    decreases candidates.len(),
{
    if candidates.len() > 0 && cloned.len() > 0 {
        let cs = candidates.drop_first();
        let cl = cloned.drop_first();
        assert forall|j: int| 0 <= j < cs.len() && j < cl.len() implies !#[trigger] cl[j] by {
            assert(cl[j] == cloned[j + 1]);
        }
        lemma_first_cloned_none(cs, cl);
    }
}

/// Category rules never move an existing clone: once some candidate
/// destination of a URL holds a clone, the destination `get` acts on is the
/// first such candidate - the same whatever root current routing (override,
/// pattern or default category) would pick for a fresh clone.
pub proof fn law_existing_clone_wins_over_routing(
    candidates: Seq<Seq<char>>,
    cloned: Seq<bool>,
    i: int,
    root_a: Seq<char>,
    root_b: Seq<char>,
    p: crate::url_parser::UrlParts,
)
    requires
        0 <= i < candidates.len(),
        i < cloned.len(),
        cloned[i],
        forall|j: int| 0 <= j < i ==> !#[trigger] cloned[j],
    ensures
        ({
            let chosen = |root: Seq<char>|
                match first_cloned(candidates, cloned) {
                    Some(d) => d,
                    None => destination_of(root, p),
                };
            chosen(root_a) == candidates[i] && chosen(root_b) == candidates[i]
        }),
{
    lemma_first_cloned_at(candidates, cloned, i);
}

proof fn lemma_first_matching_none(cs: Seq<(Seq<char>, Seq<char>)>, target: Seq<char>)
    ensures
        first_matching(cs, target) is None <==> forall|j: int|
            0 <= j < cs.len() ==> !auto_matches(#[trigger] cs[j], target),
    decreases cs.len(),
{
    if cs.len() > 0 {
        let rest = cs.drop_first();
        lemma_first_matching_none(rest, target);
        if first_matching(cs, target) is None {
            assert forall|j: int| 0 <= j < cs.len() implies !auto_matches(#[trigger] cs[j], target) by {
                if j > 0 {
                    assert(cs[j] == rest[j - 1]);
                }
            }
        } else if !auto_matches(cs[0], target) {
            let k = choose|k: int| 0 <= k < rest.len() && auto_matches(#[trigger] rest[k], target);
            assert(cs[k + 1] == rest[k]);
        }
    }
}

/// The default category does not depend on declaration order: for two
/// listings holding the same categories in any order, a URL falls back to
/// the default under one exactly when it does under the other.
pub proof fn law_default_fallback_ignores_order(
    cs1: Seq<(Seq<char>, Seq<char>)>,
    cs2: Seq<(Seq<char>, Seq<char>)>,
    target: Seq<char>,
    default_category: Option<Seq<char>>,
)
    requires
        cs1.to_set() == cs2.to_set(),
    ensures
        first_matching(cs1, target) is None <==> first_matching(cs2, target) is None,
        first_matching(cs1, target) is None ==> chosen_category(cs1, target, None, default_category)
            == default_category && chosen_category(cs2, target, None, default_category)
            == default_category,
{
    lemma_first_matching_none(cs1, target);
    lemma_first_matching_none(cs2, target);
    if first_matching(cs1, target) is None && !(first_matching(cs2, target) is None) {
        let k = choose|k: int| 0 <= k < cs2.len() && auto_matches(#[trigger] cs2[k], target);
        assert(cs2.to_set().contains(cs2[k]));
        assert(cs1.to_set().contains(cs2[k]));
        let j = choose|j: int| 0 <= j < cs1.len() && cs1[j] == cs2[k];
        assert(!auto_matches(cs1[j], target));
    }
    if first_matching(cs2, target) is None && !(first_matching(cs1, target) is None) {
        let k = choose|k: int| 0 <= k < cs1.len() && auto_matches(#[trigger] cs1[k], target);
        assert(cs1.to_set().contains(cs1[k]));
        assert(cs2.to_set().contains(cs1[k]));
        let j = choose|j: int| 0 <= j < cs2.len() && cs2[j] == cs1[k];
        assert(!auto_matches(cs2[j], target));
    }
}

/// A category name that passes `validate_name` stays inside `root-dir`:
/// under a root that is non-empty and does not end in `/`, a non-empty safe
/// name's category root is the root, a `/`, and the name - one path
/// component, free of separators and of `..`.
pub proof fn law_safe_category_stays_under_root(root: Seq<char>, name: Seq<char>)
    requires
        root.len() > 0,
        root.last() != '/',
        name.len() > 0,
        !crate::category_config::path_unsafe(name),
    ensures
        category_root(root, Some(name)) == root + seq!['/'] + name,
        !name.contains('/'),
{
    if name[0] == '/' {
        assert(name.contains('/'));
    }
}

/// Tilde expansion, as a shell does it: `~/` followed by any remainder -
/// `/`s included - is the home directory with the whole remainder joined
/// onto it, and `~` alone is the home directory; a path that does not start
/// with `~`, or starts with `~user`, is left as it is.
pub proof fn law_tilde_expansion(rest: Seq<char>, home: Seq<char>, path: Seq<char>, known: Option<Seq<char>>)
    ensures
        tilde_expanded(seq!['~', '/'] + rest, Some(home)) == push_path(home, rest),
        tilde_expanded(seq!['~'], Some(home)) == home,
        path.len() == 0 || path[0] != '~' || (path.len() > 1 && path[1] != '/') ==> tilde_expanded(
            path,
            known,
        ) == path,
{
    let p = seq!['~', '/'] + rest;
    assert(seq!['~', '/'].is_prefix_of(p)) by {
        assert(p.subrange(0, 2) =~= seq!['~', '/']);
    }
    assert(p != seq!['~']) by {
        assert(p.len() >= 2);
    }
    assert(p.skip(2) =~= rest);
    if path.len() == 0 || path[0] != '~' || (path.len() > 1 && path[1] != '/') {
        if path == seq!['~'] {
            assert(path[0] == '~' && path.len() == 1);
        }
        if seq!['~', '/'].is_prefix_of(path) {
            assert(path[0] == seq!['~', '/'][0] && path[1] == seq!['~', '/'][1]);
        }
    }
}

/// Category precedence: an explicit `--category` wins outright; without
/// one, the first declared category whose non-empty pattern matches the
/// target (unanchored, as written) is chosen; only when none matches does
/// the default category apply - and with no default, no category.
pub proof fn law_category_precedence(
    cs: Seq<(Seq<char>, Seq<char>)>,
    target: Seq<char>,
    name: Seq<char>,
    default_category: Option<Seq<char>>,
)
    ensures
        chosen_category(cs, target, Some(name), default_category) == Some(name),
        (forall|j: int|
            0 <= j < cs.len() ==> (#[trigger] cs[j]).1.len() == 0 || !regex_is_match(cs[j].1, target))
            ==> chosen_category(cs, target, None, default_category) == default_category,
        forall|i: int|
            0 <= i < cs.len() && cs[i].1.len() > 0 && regex_is_match(cs[i].1, target) && (forall|
                j: int,
            | 0 <= j < i ==> (#[trigger] cs[j]).1.len() == 0 || !regex_is_match(cs[j].1, target))
                ==> #[trigger] chosen_category(cs, target, None, default_category) == Some(cs[i].0),
{
    crate::category_routing::law_routing_picks_first_unanchored_match(cs, target);
    assert forall|i: int|
        0 <= i < cs.len() && cs[i].1.len() > 0 && regex_is_match(cs[i].1, target) && (forall|j: int|
            0 <= j < i ==> (#[trigger] cs[j]).1.len() == 0 || !regex_is_match(cs[j].1, target))
            implies #[trigger] chosen_category(cs, target, None, default_category) == Some(cs[i].0) by {
        if first_matching(cs, target) is None {
            assert(!(cs[i].1.len() == 0 || !regex_is_match(cs[i].1, target)));
        } else {
            let n = first_matching(cs, target)->0;
            let k = choose|k: int|
                0 <= k < cs.len() && cs[k].1.len() > 0 && regex_is_match(cs[k].1, target) && n
                    == cs[k].0 && forall|j: int|
                    0 <= j < k ==> (#[trigger] cs[j]).1.len() == 0 || !regex_is_match(cs[j].1, target);
            if k < i {
                assert(cs[k].1.len() == 0 || !regex_is_match(cs[k].1, target));
            } else if i < k {
                assert(cs[i].1.len() == 0 || !regex_is_match(cs[i].1, target));
            }
        }
    }
}

} // verus!
