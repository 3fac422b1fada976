//! `config category`: which form the arguments select, and the writes and
//! output lines each form produces from what git config holds.
use vstd::prelude::*;
use vstd::string::*;
use crate::category_config::{
    apply_edit, apply_edits, category_views, edits_of, path_unsafe, replace, replace_edits,
    add_all, new_patterns, category_key, contains_string, validate_name, values_of, Category,
    ConfigEdit,
};
use crate::cli::CategoryArgs;
use crate::error::GigError;
use crate::git_cmd::GitCommand;
use crate::text::{eq_str, opt_view, trim_str};

verus! {

/// How a `config category <name>` call changes the pattern list.
#[derive(Debug, Clone, PartialEq, Eq)]
pub enum PatternChange {
    /// Leave it as it is.
    Keep,
    /// Append patterns (`--add`).
    Add { patterns: Vec<String> },
    /// Replace the whole list (`<pattern>...`, or `[""]` for `--flag-only`).
    Replace { patterns: Vec<String> },
    /// Declare the category flag-only if it is not declared yet
    /// (`--default` alone).
    DeclareIfMissing,
}

/// How a `config category <name>` call changes the default flag.
#[derive(Debug, Clone, Copy, PartialEq, Eq, Structural)]
pub enum DefaultChange {
    Keep,
    /// `--default`: make this the default category.
    Mark,
    /// `--no-default`: clear its default flag.
    Unmark,
}

/// The form a `config category` invocation selects.
#[derive(Debug, Clone, PartialEq, Eq)]
pub enum CategoryCommand {
    /// No name: list every declared category.
    List,
    /// A name alone: print that category's patterns.
    View { name: String },
    /// A name with changes to its patterns and/or default flag.
    Update { name: String, change: PatternChange, default: DefaultChange },
}

/// A `PatternChange::Replace` holding exactly `ps`.
pub open spec fn replaces_with(c: PatternChange, ps: Seq<Seq<char>>) -> bool {
    c matches PatternChange::Replace { patterns } && patterns.deep_view() == ps
}

/// A `PatternChange::Add` holding exactly `ps`.
pub open spec fn adds(c: PatternChange, ps: Seq<Seq<char>>) -> bool {
    c matches PatternChange::Add { patterns } && patterns.deep_view() == ps
}

/// The default change `--default`/`--no-default` ask for.
pub open spec fn default_change(a: CategoryArgs) -> DefaultChange {
    if a.default {
        DefaultChange::Mark
    } else if a.no_default {
        DefaultChange::Unmark
    } else {
        DefaultChange::Keep
    }
}

/// Which form `config category` arguments select:
/// - no name (and no flags or patterns): list every category;
/// - a name alone: view it;
/// - `--add` with patterns: append them (never creates a category);
/// - `--flag-only`: replace the list with an empty pattern;
/// - patterns: declare, or replace the whole list;
/// - `--default`: mark it default, declaring it flag-only first if new;
/// - `--no-default`: clear its default flag.
///
/// `--default`/`--no-default` combine with patterns and `--flag-only`.
/// Flags without a name, `--add` with `--flag-only`, patterns with
/// `--flag-only`, `--add` without patterns, `--default` with
/// `--no-default`, and `--add` with either default flag are errors, checked
/// in that order. Every form that writes patterns or marks a default
/// rejects a path-unsafe name before anything is read or written.
pub fn run_config_category(args: &CategoryArgs) -> (r: Result<CategoryCommand, GigError>)
    ensures
        ({
            let a = *args;
            let ps = a.patterns.deep_view();
            let has_flags = a.flag_only || a.add || a.default || a.no_default || ps.len() > 0;
            &&& a.name is None && has_flags ==> r == Err::<CategoryCommand, GigError>(
                GigError::NameRequired,
            )
            &&& a.name is None && !has_flags ==> r == Ok::<CategoryCommand, GigError>(
                CategoryCommand::List,
            )
            &&& a.name matches Some(n) ==> {
                if a.add && a.flag_only {
                    r matches Err(GigError::AddWithFlagOnly { name }) && name@ == n@
                } else if a.flag_only && ps.len() > 0 {
                    r matches Err(GigError::PatternWithFlagOnly { name }) && name@ == n@
                } else if a.add && ps.len() == 0 {
                    r == Err::<CategoryCommand, GigError>(GigError::AddWithoutPattern)
                } else if a.default && a.no_default {
                    r matches Err(GigError::DefaultWithNoDefault { name }) && name@ == n@
                } else if a.add && (a.default || a.no_default) {
                    r matches Err(GigError::AddWithDefault { name }) && name@ == n@
                } else if !a.add && !a.flag_only && ps.len() == 0 && !a.default {
                    if a.no_default {
                        r matches Ok(CategoryCommand::Update { name, change, default }) && name@
                            == n@ && change == PatternChange::Keep && default
                            == DefaultChange::Unmark
                    } else {
                        r matches Ok(CategoryCommand::View { name }) && name@ == n@
                    }
                } else if path_unsafe(n@) {
                    r matches Err(GigError::UnsafeCategoryName { name }) && name@ == n@
                } else if a.add {
                    r matches Ok(CategoryCommand::Update { name, change, default }) && name@ == n@
                        && adds(change, ps) && default == DefaultChange::Keep
                } else if a.flag_only {
                    r matches Ok(CategoryCommand::Update { name, change, default }) && name@ == n@
                        && replaces_with(change, seq![Seq::<char>::empty()]) && default
                        == default_change(a)
                } else if ps.len() > 0 {
                    r matches Ok(CategoryCommand::Update { name, change, default }) && name@ == n@
                        && replaces_with(change, ps) && default == default_change(a)
                } else {
                    r matches Ok(CategoryCommand::Update { name, change, default }) && name@ == n@
                        && change == PatternChange::DeclareIfMissing && default
                        == DefaultChange::Mark
                }
            }
        }),
{
    let has_patterns = args.patterns.len() > 0;
    let name = match &args.name {
        None => {
            if args.flag_only || args.add || args.default || args.no_default || has_patterns {
                return Err(GigError::NameRequired);
            }
            return Ok(CategoryCommand::List);
        },
        Some(n) => n,
    };
    if args.add && args.flag_only {
        return Err(GigError::AddWithFlagOnly { name: name.clone() });
    }
    if args.flag_only && has_patterns {
        return Err(GigError::PatternWithFlagOnly { name: name.clone() });
    }
    if args.add && !has_patterns {
        return Err(GigError::AddWithoutPattern);
    }
    if args.default && args.no_default {
        return Err(GigError::DefaultWithNoDefault { name: name.clone() });
    }
    if args.add && (args.default || args.no_default) {
        return Err(GigError::AddWithDefault { name: name.clone() });
    }
    let default = if args.default {
        DefaultChange::Mark
    } else if args.no_default {
        DefaultChange::Unmark
    } else {
        DefaultChange::Keep
    };
    if !args.add && !args.flag_only && !has_patterns && !args.default {
        if args.no_default {
            return Ok(
                CategoryCommand::Update {
                    name: name.clone(),
                    change: PatternChange::Keep,
                    default: DefaultChange::Unmark,
                },
            );
        }
        return Ok(CategoryCommand::View { name: name.clone() });
    }
    validate_name(name.as_str())?;
    if args.add {
        return Ok(
            CategoryCommand::Update {
                name: name.clone(),
                change: PatternChange::Add { patterns: args.patterns.clone() },
                default: DefaultChange::Keep,
            },
        );
    }
    if args.flag_only {
        let mut flag_only_list: Vec<String> = Vec::new();
        flag_only_list.push(String::new());
        assert(flag_only_list.deep_view() =~= seq![Seq::<char>::empty()]);
        return Ok(
            CategoryCommand::Update {
                name: name.clone(),
                change: PatternChange::Replace { patterns: flag_only_list },
                default,
            },
        );
    }
    if has_patterns {
        return Ok(
            CategoryCommand::Update {
                name: name.clone(),
                change: PatternChange::Replace { patterns: args.patterns.clone() },
                default,
            },
        );
    }
    Ok(
        CategoryCommand::Update {
            name: name.clone(),
            change: PatternChange::DeclareIfMissing,
            default: DefaultChange::Mark,
        },
    )
}

/// `config category <name> <pattern>... --add`: the writes that append
/// `patterns` to a declared category's list (`existing`, as read from git
/// config), skipping exact duplicates. An undeclared category - no existing
/// patterns - is an error and nothing is written: `--add` never creates one.
pub fn run_config_category_add(name: &str, existing: &Vec<String>, patterns: &Vec<String>) -> (r:
    Result<Vec<GitCommand>, GigError>)
    ensures
        existing@.len() == 0 ==> (r matches Err(GigError::CategoryNotDeclared { name: n }) && n@
            == name@),
        existing@.len() > 0 ==> (r matches Ok(cs) && edits_of(cs@) == add_all(
            category_key(name@),
            new_patterns(existing.deep_view(), patterns.deep_view()),
        )),
{
    if existing.len() == 0 {
        return Err(GigError::CategoryNotDeclared { name: name.to_owned() });
    }
    Ok(crate::category_config::add(name, existing, patterns))
}

/// Whether replacing `existing` with `patterns` drops a previously declared,
/// non-empty pattern - the case that earns a warning. Never for a new
/// category or one that was flag-only.
pub open spec fn drops_patterns(existing: Seq<Seq<char>>, patterns: Seq<Seq<char>>) -> bool {
    exists|i: int|
        0 <= i < existing.len() && #[trigger] existing[i].len() > 0 && !patterns.contains(
            existing[i],
        )
}

/// `config category <name> <pattern>...` / `--flag-only`: whether to warn
/// that the replace drops patterns, and the writes that replace `name`'s
/// list (`existing`, as read from git config) with `patterns`.
pub fn run_config_category_replace(
    name: &str,
    existing: &Vec<String>,
    patterns: &Vec<String>,
) -> (r: Result<(bool, Vec<GitCommand>), GigError>)
    ensures
        match replace_edits(category_key(name@), existing.deep_view(), patterns.deep_view()) {
            Some(es) => r matches Ok((warn, cs)) && edits_of(cs@) == es && warn == drops_patterns(
                existing.deep_view(),
                patterns.deep_view(),
            ),
            None => r == Err::<(bool, Vec<GitCommand>), GigError>(GigError::NoPatterns),
        },
{
    let ghost ex = existing.deep_view();
    let ghost ps = patterns.deep_view();
    let mut warn = false;
    let n = existing.len();
    for i in 0..n
        invariant
            n == existing@.len(),
            ex == existing.deep_view(),
            ps == patterns.deep_view(),
            warn <==> exists|j: int|
                0 <= j < i && #[trigger] ex[j].len() > 0 && !ps.contains(ex[j]),
    {
        let p = &existing[i];
        assert(ex[i as int] == p@);
        if !p.as_str().is_empty() && !contains_string(patterns, p) {
            warn = true;
        }
    }
    let cs = replace(name, existing, patterns)?;
    Ok((warn, cs))
}

/// `--default` alone: declares `name` flag-only when it has no patterns yet
/// (`existing`, as read from git config); an already declared category's
/// patterns are left untouched.
pub fn declare_if_missing(name: &str, existing: &Vec<String>) -> (cs: Vec<GitCommand>)
    ensures
        existing@.len() > 0 ==> cs@.len() == 0,
        existing@.len() == 0 ==> edits_of(cs@) == seq![
            ConfigEdit::SetValue { key: category_key(name@), value: Seq::empty() },
        ],
{
    if existing.len() > 0 {
        return Vec::new();
    }
    let mut flag_only_list: Vec<String> = Vec::new();
    flag_only_list.push(String::new());
    assert(flag_only_list.deep_view() =~= seq![Seq::<char>::empty()]);
    match replace(name, existing, &flag_only_list) {
        Ok(cs) => cs,
        Err(_) => Vec::new(),
    }
}

/// The git config key flagging `name` as the default category.
pub open spec fn default_key_of(name: Seq<char>) -> Seq<char> {
    "gig.category."@ + name + ".default"@
}

/// The git config key flagging `name` as the default category.
pub fn default_key(name: &str) -> (k: String)
    ensures
        k@ == default_key_of(name@),
{
    let mut k = "gig.category.".to_owned();
    k.append(name);
    k.append(".default");
    k
}

/// The names of the entries `cs`, each once, in order of first appearance.
pub open spec fn distinct_names(cs: Seq<(Seq<char>, Seq<char>)>) -> Seq<Seq<char>>
    decreases cs.len(),
{
    if cs.len() == 0 {
        Seq::empty()
    } else {
        let prev = distinct_names(cs.drop_last());
        if prev.contains(cs.last().0) {
            prev
        } else {
            prev.push(cs.last().0)
        }
    }
}

/// The declared categories' names, each once (a category with several
/// patterns is listed once per pattern), in declaration order - the names
/// whose default flags decide the default category.
pub fn declared_names(categories: &Vec<Category>) -> (r: Vec<String>)
    ensures
        r.deep_view() == distinct_names(category_views(categories@)),
        r.deep_view().no_duplicates(),
{
    let ghost cs = category_views(categories@);
    let mut r: Vec<String> = Vec::new();
    let n = categories.len();
    assert(cs.take(0) =~= Seq::<(Seq<char>, Seq<char>)>::empty());
    for i in 0..n
        invariant
            n == categories@.len(),
            cs == category_views(categories@),
            r.deep_view() == distinct_names(cs.take(i as int)),
            r.deep_view().no_duplicates(),
    {
        let ghost before = r.deep_view();
        assert(cs.take(i + 1).drop_last() =~= cs.take(i as int));
        assert(cs.take(i + 1).last() == cs[i as int]);
        assert(cs[i as int].0 == categories@[i as int].name@);
        if !contains_string(&r, &categories[i].name) {
            r.push(categories[i].name.clone());
            assert(r.deep_view() =~= before.push(categories@[i as int].name@));
        }
    }
    assert(cs.take(n as int) =~= cs);
    r
}

/// Whether a default flag value, as `git config --get` printed it, is set.
pub open spec fn flag_set(value: Option<Seq<char>>) -> bool {
    value matches Some(v) && crate::text::trim(v) == "true"@
}

/// The default category: the first of `names` whose default flag (`flags`,
/// position by position, as read from git config; `None` when unset) is
/// `true`.
pub fn default_name(names: &Vec<String>, flags: &Vec<Option<String>>) -> (r: Option<String>)
    ensures
        ({
            let n = if names@.len() < flags@.len() {
                names@.len()
            } else {
                flags@.len()
            };
            &&& r is None ==> forall|j: int| 0 <= j < n ==> !flag_set(opt_view(#[trigger] flags@[j]))
            &&& r matches Some(d) ==> exists|i: int|
                0 <= i < n && flag_set(opt_view(flags@[i])) && d@ == names@[i]@ && forall|j: int|
                    0 <= j < i ==> !flag_set(opt_view(#[trigger] flags@[j]))
        }),
{
    let n = if names.len() < flags.len() {
        names.len()
    } else {
        flags.len()
    };
    for i in 0..n
        invariant
            n <= names@.len(),
            n <= flags@.len(),
            n == names@.len() || n == flags@.len(),
            forall|j: int| 0 <= j < i ==> !flag_set(opt_view(#[trigger] flags@[j])),
    {
        match &flags[i] {
            Some(v) => {
                let t = trim_str(v.as_str());
                if eq_str(t.as_str(), "true") {
                    return Some(names[i].clone());
                }
            },
            None => {},
        }
    }
    None
}

/// `--default`: the writes that make `name` the default category, given
/// the current default (`previous`), and the category it demotes, if any.
/// Re-marking the current default writes nothing and demotes nobody.
pub fn set_default(name: &str, previous: Option<String>) -> (r: (Vec<GitCommand>, Option<String>))
    ensures
        edits_of(r.0@) == set_default_edits(name@, opt_view(previous)),
        opt_view(previous) == Some(name@) ==> (r.0@.len() == 0 && r.1 is None),
        previous is None ==> (edits_of(r.0@) == seq![
            ConfigEdit::SetValue { key: default_key_of(name@), value: "true"@ },
        ] && r.1 is None),
        previous matches Some(p) ==> (p@ != name@ ==> (edits_of(r.0@) == seq![
            ConfigEdit::Unset { key: default_key_of(p@) },
            ConfigEdit::SetValue { key: default_key_of(name@), value: "true"@ },
        ] && opt_view(r.1) == Some(p@))),
{
    let mut cs: Vec<GitCommand> = Vec::new();
    let demoted = match previous {
        Some(p) => {
            if eq_str(p.as_str(), name) {
                return (cs, None);
            }
            cs.push(GitCommand::ConfigUnsetGlobal { key: default_key(p.as_str()) });
            Some(p)
        },
        None => None,
    };
    cs.push(GitCommand::ConfigSetGlobal { key: default_key(name), value: "true".to_owned() });
    assert(edits_of(cs@) =~= cs@.map_values(|c: GitCommand| crate::category_config::edit_of(c)));
    (cs, demoted)
}

/// `--no-default`: the write that clears `name`'s default flag. Clearing a
/// flag that was never set is not an error.
pub fn unset_default(name: &str) -> (c: GitCommand)
    ensures
        crate::category_config::edit_of(c) == (ConfigEdit::Unset { key: default_key_of(name@) }),
{
    GitCommand::ConfigUnsetGlobal { key: default_key(name) }
}

/// `config category <name>` (view): one line per pattern, in declaration
/// order, each followed by a tab and `default` when `name` is the default
/// category. An undeclared category (no patterns) is an error.
pub fn run_config_category_view(name: &str, patterns: &Vec<String>, default: Option<String>) -> (r:
    Result<Vec<String>, GigError>)
    ensures
        patterns@.len() == 0 ==> (r matches Err(GigError::CategoryNotDeclared { name: n }) && n@
            == name@),
        patterns@.len() > 0 ==> (r matches Ok(lines) && lines.deep_view() == patterns.deep_view().map_values(
            |p: Seq<char>|
                if opt_view(default) == Some(name@) {
                    p + "\tdefault"@
                } else {
                    p
                },
        )),
{
    if patterns.len() == 0 {
        return Err(GigError::CategoryNotDeclared { name: name.to_owned() });
    }
    let is_default = match &default {
        Some(d) => eq_str(d.as_str(), name),
        None => false,
    };
    let ghost expected = patterns.deep_view().map_values(
        |p: Seq<char>|
            if opt_view(default) == Some(name@) {
                p + "\tdefault"@
            } else {
                p
            },
    );
    let mut lines: Vec<String> = Vec::new();
    let n = patterns.len();
    for i in 0..n
        invariant
            n == patterns@.len(),
            is_default == (opt_view(default) == Some(name@)),
            expected == patterns.deep_view().map_values(
                |p: Seq<char>|
                    if opt_view(default) == Some(name@) {
                        p + "\tdefault"@
                    } else {
                        p
                    },
            ),
            lines.deep_view() == expected.take(i as int),
    {
        let mut line = patterns[i].clone();
        if is_default {
            line.append("\tdefault");
        }
        let ghost before = lines.deep_view();
        lines.push(line);
        assert(lines.deep_view() =~= before.push(expected[i as int]));
        assert(expected.take(i + 1) =~= expected.take(i as int).push(expected[i as int]));
    }
    assert(expected.take(n as int) =~= expected);
    Ok(lines)
}

/// The `config category` listing line of one category entry.
pub open spec fn listing_line(c: (Seq<char>, Seq<char>), default: Option<Seq<char>>) -> Seq<char> {
    if default == Some(c.0) {
        c.0 + "\t"@ + c.1 + "\tdefault"@
    } else {
        c.0 + "\t"@ + c.1
    }
}

/// `config category` with no name: one line per declared category entry,
/// `<name>\t<pattern>`, in declaration order; the default category's lines
/// get a trailing `\tdefault` field.
pub fn run_config_category_list(categories: &Vec<Category>, default: Option<String>) -> (lines: Vec<
    String,
>)
    ensures
        lines.deep_view() == category_views(categories@).map_values(
            |c: (Seq<char>, Seq<char>)| listing_line(c, opt_view(default)),
        ),
{
    let ghost expected = category_views(categories@).map_values(
        |c: (Seq<char>, Seq<char>)| listing_line(c, opt_view(default)),
    );
    let mut lines: Vec<String> = Vec::new();
    let n = categories.len();
    for i in 0..n
        invariant
            n == categories@.len(),
            expected == category_views(categories@).map_values(
                |c: (Seq<char>, Seq<char>)| listing_line(c, opt_view(default)),
            ),
            lines.deep_view() == expected.take(i as int),
    {
        let c = &categories[i];
        let is_default = match &default {
            Some(d) => eq_str(d.as_str(), c.name.as_str()),
            None => false,
        };
        let mut line = c.name.clone();
        line.append("\t");
        line.append(c.pattern.as_str());
        if is_default {
            line.append("\tdefault");
        }
        let ghost before = lines.deep_view();
        lines.push(line);
        assert(expected[i as int] == listing_line((c.name@, c.pattern@), opt_view(default)));
        assert(lines.deep_view() =~= before.push(expected[i as int]));
        assert(expected.take(i + 1) =~= expected.take(i as int).push(expected[i as int]));
    }
    assert(expected.take(n as int) =~= expected);
    lines
}

} // verus!

verus! {

/// The edits `set_default` plans for `name` given the current default.
pub open spec fn set_default_edits(name: Seq<char>, previous: Option<Seq<char>>) -> Seq<ConfigEdit> {
    match previous {
        Some(p) => if p == name {
            Seq::empty()
        } else {
            seq![
                ConfigEdit::Unset { key: default_key_of(p) },
                ConfigEdit::SetValue { key: default_key_of(name), value: "true"@ },
            ]
        },
        None => seq![ConfigEdit::SetValue { key: default_key_of(name), value: "true"@ }],
    }
}

proof fn lemma_default_key_injective(a: Seq<char>, b: Seq<char>)
    requires
        default_key_of(a) == default_key_of(b),
    ensures
        a == b,
{
    let pre = "gig.category."@;
    let suf = ".default"@;
    assert(default_key_of(a).len() == pre.len() + a.len() + suf.len());
    assert(a.len() == b.len());
    assert forall|i: int| 0 <= i < a.len() implies a[i] == b[i] by {
        assert(default_key_of(a)[pre.len() + i] == a[i]);
        assert(default_key_of(b)[pre.len() + i] == b[i]);
    }
    assert(a =~= b);
}

/// Marking a category default leaves exactly that category flagged among
/// the two involved: its flag holds `true` afterwards, the previous
/// default's flag is gone, and every other key is as it was. Re-marking the
/// current default changes nothing.
pub proof fn law_mark_default_demotes_previous(
    store: Map<Seq<char>, Seq<Seq<char>>>,
    name: Seq<char>,
    previous: Option<Seq<char>>,
)
    requires
        values_of(store, default_key_of(name)).len() <= 1,
        previous matches Some(p) ==> values_of(store, default_key_of(p)).len() <= 1,
    ensures
        ({
            let after = apply_edits(store, set_default_edits(name, previous));
            &&& after is Some
            &&& previous == Some(name) ==> after == Some(store)
            &&& previous != Some(name) ==> values_of(after->0, default_key_of(name)) == seq![
                "true"@,
            ]
            &&& previous matches Some(p) ==> (p != name ==> values_of(
                after->0,
                default_key_of(p),
            ).len() == 0)
            &&& forall|k: Seq<char>|
                k != default_key_of(name) && (previous matches Some(p) ==> k != default_key_of(p))
                    ==> #[trigger] values_of(after->0, k) == values_of(store, k)
        }),
{
    let kn = default_key_of(name);
    match previous {
        Some(p) => {
            if p == name {
                assert(set_default_edits(name, previous) =~= Seq::<ConfigEdit>::empty());
            } else {
                let kp = default_key_of(p);
                if kp == kn {
                    lemma_default_key_injective(p, name);
                }
                let es = set_default_edits(name, previous);
                let s1 = store.remove(kp);
                assert(apply_edit(store, es[0]) == Some(s1));
                assert(values_of(s1, kn) == values_of(store, kn));
                let s2 = s1.insert(kn, seq!["true"@]);
                assert(apply_edit(s1, es[1]) == Some(s2));
                assert(es.drop_first().drop_first() =~= Seq::<ConfigEdit>::empty());
                assert(apply_edits(s2, es.drop_first().drop_first()) == Some(s2));
                assert(apply_edits(s1, es.drop_first()) == Some(s2));
                assert(apply_edits(store, es) == Some(s2));
                assert(!s2.dom().contains(kp));
                assert forall|k: Seq<char>| k != kn && k != kp implies #[trigger] values_of(s2, k)
                    == values_of(store, k) by {
                    assert(s2.dom().contains(k) == store.dom().contains(k));
                }
            }
        },
        None => {
            let es = set_default_edits(name, previous);
            let s1 = store.insert(kn, seq!["true"@]);
            assert(apply_edit(store, es[0]) == Some(s1));
            assert(es.drop_first() =~= Seq::<ConfigEdit>::empty());
            assert(apply_edits(s1, es.drop_first()) == Some(s1));
            assert forall|k: Seq<char>| k != kn implies #[trigger] values_of(s1, k) == values_of(
                store,
                k,
            ) by {
                assert(s1.dom().contains(k) == store.dom().contains(k));
            }
        },
    }
}

/// The pattern key and the default-flag key of a category never coincide.
proof fn lemma_default_key_is_not_pattern_key(name: Seq<char>)
    ensures
        default_key_of(name) != category_key(name),
{
    reveal_strlit("gig.category.");
    reveal_strlit(".default");
    reveal_strlit(".pattern");
    let i: int = 13 + name.len() as int + 1;
    assert(default_key_of(name)[i] == 'd');
    assert(category_key(name)[i] == 'p');
}

/// Clearing a category's default flag removes that flag and nothing else:
/// its patterns, and every other key, are as they were. Clearing a flag
/// that was never set leaves the store unchanged.
pub proof fn law_unmark_default_keeps_patterns(store: Map<Seq<char>, Seq<Seq<char>>>, name: Seq<char>)
    requires
        values_of(store, default_key_of(name)).len() <= 1,
    ensures
        ({
            let after = apply_edit(store, ConfigEdit::Unset { key: default_key_of(name) });
            &&& after is Some
            &&& values_of(after->0, default_key_of(name)).len() == 0
            &&& values_of(after->0, category_key(name)) == values_of(store, category_key(name))
            &&& forall|k: Seq<char>|
                k != default_key_of(name) ==> #[trigger] values_of(after->0, k) == values_of(store, k)
        }),
{
    let kd = default_key_of(name);
    let after = store.remove(kd);
    lemma_default_key_is_not_pattern_key(name);
    assert forall|k: Seq<char>| k != kd implies #[trigger] values_of(after, k) == values_of(store, k) by {
        assert(after.dom().contains(k) == store.dom().contains(k));
    }
    assert(values_of(after, category_key(name)) == values_of(store, category_key(name)));
}

proof fn lemma_distinct_names_members(cs: Seq<(Seq<char>, Seq<char>)>, n: Seq<char>)
    ensures
        distinct_names(cs).contains(n) <==> exists|i: int| 0 <= i < cs.len() && #[trigger] cs[i].0 == n,
    decreases cs.len(),
{
    if cs.len() > 0 {
        let p = cs.drop_last();
        let prev = distinct_names(p);
        let x = cs.last().0;
        lemma_distinct_names_members(p, n);
        lemma_distinct_names_members(p, x);
        assert forall|i: int| 0 <= i < p.len() implies #[trigger] p[i] == cs[i] by {}
        if exists|i: int| 0 <= i < cs.len() && #[trigger] cs[i].0 == n {
            let i = choose|i: int| 0 <= i < cs.len() && #[trigger] cs[i].0 == n;
            if i < cs.len() - 1 {
                assert(p[i].0 == n);
            }
        }
        if prev.contains(n) {
            let i = choose|i: int| 0 <= i < p.len() && #[trigger] p[i].0 == n;
            assert(cs[i].0 == n);
        }
        if !prev.contains(x) {
            let d = prev.push(x);
            assert(distinct_names(cs) == d);
            if d.contains(n) {
                let k = choose|k: int| 0 <= k < d.len() && d[k] == n;
                if k < prev.len() {
                    assert(prev[k] == n);
                } else {
                    assert(cs[cs.len() - 1].0 == n);
                }
            }
            if prev.contains(n) {
                let k = choose|k: int| 0 <= k < prev.len() && prev[k] == n;
                assert(d[k] == n);
            }
            if n == x {
                assert(d[prev.len() as int] == x);
                assert(cs[cs.len() - 1].0 == n);
            }
        }
    }
}

proof fn lemma_distinct_names_unique(cs: Seq<(Seq<char>, Seq<char>)>)
    ensures
        distinct_names(cs).no_duplicates(),
    decreases cs.len(),
{
    if cs.len() > 0 {
        let p = cs.drop_last();
        let prev = distinct_names(p);
        let x = cs.last().0;
        lemma_distinct_names_unique(p);
        if !prev.contains(x) {
            let d = prev.push(x);
            assert forall|u: int, v: int| 0 <= u < d.len() && 0 <= v < d.len() && u != v implies d[u]
                != d[v] by {
                if u == prev.len() {
                    assert(d[v] == prev[v]);
                    if d[u] == d[v] {
                        assert(prev.contains(x));
                    }
                } else if v == prev.len() {
                    assert(prev[u] == d[u]);
                    if d[u] == d[v] {
                        assert(prev.contains(x));
                    }
                } else {
                    assert(prev[u] == d[u] && prev[v] == d[v]);
                }
            }
        }
    }
}

/// Whether the name `m` is declared by some entry at or before position `i`.
pub open spec fn declared_by(cs: Seq<(Seq<char>, Seq<char>)>, m: Seq<char>, i: int) -> bool {
    exists|j: int| 0 <= j <= i && j < cs.len() && #[trigger] cs[j].0 == m
}

proof fn lemma_distinct_names_order(cs: Seq<(Seq<char>, Seq<char>)>, a: int, b: int)
    requires
        0 <= a < b < distinct_names(cs).len(),
    ensures
        exists|i: int|
            0 <= i < cs.len() && cs[i].0 == distinct_names(cs)[a] && !declared_by(
                cs,
                distinct_names(cs)[b],
                i,
            ),
    decreases cs.len(),
{
    let p = cs.drop_last();
    let prev = distinct_names(p);
    let x = cs.last().0;
    assert forall|i: int| 0 <= i < p.len() implies #[trigger] p[i] == cs[i] by {}
    if prev.contains(x) {
        assert(distinct_names(cs) == prev);
        lemma_distinct_names_order(p, a, b);
        let i = choose|i: int|
            0 <= i < p.len() && p[i].0 == prev[a] && !declared_by(p, prev[b], i);
        assert(cs[i].0 == prev[a]);
        if declared_by(cs, prev[b], i) {
            let j = choose|j: int| 0 <= j <= i && j < cs.len() && #[trigger] cs[j].0 == prev[b];
            assert(p[j].0 == prev[b]);
        }
    } else {
        let d = prev.push(x);
        assert(distinct_names(cs) == d);
        if b < prev.len() {
            lemma_distinct_names_order(p, a, b);
            let i = choose|i: int|
                0 <= i < p.len() && p[i].0 == prev[a] && !declared_by(p, prev[b], i);
            assert(cs[i].0 == d[a]);
            assert(d[b] == prev[b]);
            if declared_by(cs, d[b], i) {
                let j = choose|j: int| 0 <= j <= i && j < cs.len() && #[trigger] cs[j].0 == d[b];
                assert(p[j].0 == prev[b]);
            }
        } else {
            assert(d[b] == x && d[a] == prev[a]);
            assert(prev.contains(prev[a]));
            lemma_distinct_names_members(p, prev[a]);
            lemma_distinct_names_members(p, x);
            let i = choose|i: int| 0 <= i < p.len() && #[trigger] p[i].0 == prev[a];
            assert(cs[i].0 == d[a]);
            if declared_by(cs, x, i) {
                let j = choose|j: int| 0 <= j <= i && j < cs.len() && #[trigger] cs[j].0 == x;
                assert(p[j].0 == x);
            }
        }
    }
}

/// Of any two of `names`, the earlier is declared (in `cs`) before the
/// later one's first declaration.
pub open spec fn in_declaration_order(cs: Seq<(Seq<char>, Seq<char>)>, names: Seq<Seq<char>>) -> bool {
    forall|a: int, b: int|
        #![trigger names[a], names[b]]
        0 <= a < b < names.len() ==> exists|i: int|
            #![trigger cs[i]]
            0 <= i < cs.len() && cs[i].0 == names[a] && !declared_by(cs, names[b], i)
}

/// The distinct names of a listing hold each declared name exactly once,
/// in order of first declaration: a name is there exactly when some entry
/// has it, and of two names the earlier one was declared before the later
/// one's first declaration.
pub proof fn law_distinct_names_lists_each_name_once(cs: Seq<(Seq<char>, Seq<char>)>, n: Seq<char>)
    ensures
        distinct_names(cs).no_duplicates(),
        distinct_names(cs).contains(n) <==> exists|i: int| 0 <= i < cs.len() && #[trigger] cs[i].0 == n,
        in_declaration_order(cs, distinct_names(cs)),
{
    let names = distinct_names(cs);
    lemma_distinct_names_unique(cs);
    lemma_distinct_names_members(cs, n);
    assert forall|a: int, b: int| 0 <= a < b < names.len() implies exists|i: int|
        #![trigger cs[i]]
        0 <= i < cs.len() && cs[i].0 == #[trigger] names[a] && !declared_by(cs, #[trigger] names[b], i) by {
        lemma_distinct_names_order(cs, a, b);
        let i = choose|i: int|
            0 <= i < cs.len() && cs[i].0 == distinct_names(cs)[a] && !declared_by(
                cs,
                distinct_names(cs)[b],
                i,
            );
        assert(0 <= i < cs.len() && cs[i].0 == names[a] && !declared_by(cs, names[b], i));
    }
    assert(in_declaration_order(cs, names));
}

} // verus!
