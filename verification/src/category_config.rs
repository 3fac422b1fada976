//! Category routing rules as stored in git's config: a category is declared
//! by the existence of a `gig.category.<name>.pattern` key, even with an
//! empty value - that's what lets a flag-only category (no regex, usable
//! only via `--category`) register for enumeration.
use vstd::prelude::*;
use vstd::string::*;
use crate::error::GigError;
use crate::git_cmd::{GitCommand, GitOutput};
use crate::git_config::{failed, failure, get_all};
use crate::text::{
    chars_of, ends_with, first_index_of, index_of, lemma_first_index_le, lines, lines_of,
    split_once, starts_with, string_of, string_of_range, trim,
};

verus! {

/// The `--get-regexp` pattern that enumerates every declared category, in
/// git-config declaration order - the same order automatic category
/// matching uses for precedence.
pub const ENUMERATE_PATTERN: &'static str = "^gig\\.category\\..*\\.pattern$";

/// A single declared category and one of its patterns.
#[derive(Debug, Clone, PartialEq, Eq)]
pub struct Category {
    pub name: String,
    pub pattern: String,
}

/// Names and patterns of a list of categories.
pub open spec fn category_views(cs: Seq<Category>) -> Seq<(Seq<char>, Seq<char>)> {
    cs.map_values(|c: Category| (c.name@, c.pattern@))
}

/// The config key holding `name`'s patterns.
pub open spec fn category_key(name: Seq<char>) -> Seq<char> {
    "gig.category."@ + name + ".pattern"@
}

/// The key of a `--get-regexp` output line: everything before its first
/// space, or the whole line.
pub open spec fn entry_key(line: Seq<char>) -> Seq<char> {
    match split_once(line, ' ') {
        Some((k, _)) => k,
        None => line,
    }
}

/// The value of a `--get-regexp` output line: everything after its first
/// space, or nothing.
pub open spec fn entry_value(line: Seq<char>) -> Seq<char> {
    match split_once(line, ' ') {
        Some((_, v)) => v,
        None => Seq::empty(),
    }
}

/// The category name inside `gig.category.<name>.pattern`.
pub open spec fn name_of_key(key: Seq<char>) -> Option<Seq<char>> {
    if "gig.category."@.is_prefix_of(key) {
        let rest = key.skip("gig.category."@.len() as int);
        if ".pattern"@.is_suffix_of(rest) {
            Some(rest.take(rest.len() - ".pattern"@.len()))
        } else {
            None
        }
    } else {
        None
    }
}

/// The categories a `--get-regexp` listing declares, in order, or the key of
/// its first line that is not a category key.
pub open spec fn parse_listing(ls: Seq<Seq<char>>) -> Result<
    Seq<(Seq<char>, Seq<char>)>,
    Seq<char>,
>
    decreases ls.len(),
{
    if ls.len() == 0 {
        Ok(Seq::empty())
    } else {
        match name_of_key(entry_key(ls[0])) {
            None => Err(entry_key(ls[0])),
            Some(n) => match parse_listing(ls.drop_first()) {
                Ok(t) => Ok(seq![(n, entry_value(ls[0]))] + t),
                Err(k) => Err(k),
            },
        }
    }
}

/// Whether `name` could escape `root-dir` as a path segment: it holds `/`,
/// `\`, or `..`.
pub open spec fn path_unsafe(name: Seq<char>) -> bool {
    ||| name.contains('/')
    ||| name.contains('\\')
    ||| exists|i: int| 0 <= i < name.len() - 1 && #[trigger] name[i] == '.' && name[i + 1] == '.'
}

/// The config key holding `name`'s patterns.
pub fn key(name: &str) -> (k: String)
    ensures
        k@ == category_key(name@),
{
    let mut k = "gig.category.".to_owned();
    k.append(name);
    k.append(".pattern");
    k
}

/// Parses one `--get-regexp` output line (`<key> <value>`, with `<value>`
/// possibly empty) into its category name and pattern.
pub fn parse_entry_line(line: &str) -> (r: Result<Category, GigError>)
    ensures
        match name_of_key(entry_key(line@)) {
            Some(n) => r matches Ok(c) && c.name@ == n && c.pattern@ == entry_value(line@),
            None => r matches Err(GigError::UnexpectedConfigKey { key }) && key@ == entry_key(
                line@,
            ),
        },
{
    let v = chars_of(line);
    let sp = index_of(&v, ' ');
    proof {
        lemma_first_index_le(v@, ' ');
    }
    let (key_end, value) = if sp < v.len() {
        (sp, string_of_range(&v, sp + 1, v.len()))
    } else {
        (v.len(), String::new())
    };
    assert(entry_key(line@) =~= v@.subrange(0, key_end as int));
    let prefix = chars_of("gig.category.");
    let suffix = chars_of(".pattern");
    let key_chars = crate::text::slice_chars(&v, 0, key_end);
    if starts_with(&key_chars, &prefix) {
        let rest = crate::text::slice_chars(&key_chars, prefix.len(), key_chars.len());
        assert(rest@ =~= key_chars@.skip(prefix@.len() as int));
        if ends_with(&rest, &suffix) {
            let name = string_of_range(&rest, 0, rest.len() - suffix.len());
            return Ok(Category { name, pattern: value });
        }
    }
    Err(GigError::UnexpectedConfigKey { key: string_of(&key_chars) })
}

/// Whether `r` is what `list` reports for a listing `expected`.
pub open spec fn listing_result(
    r: Result<Vec<Category>, GigError>,
    expected: Result<Seq<(Seq<char>, Seq<char>)>, Seq<char>>,
) -> bool {
    match expected {
        Ok(v) => r matches Ok(cs) && category_views(cs@) == v,
        Err(k) => r matches Err(GigError::UnexpectedConfigKey { key }) && key@ == k,
    }
}

/// Every declared category, from what `git config --get-regexp
/// ENUMERATE_PATTERN` reported, in declaration order - one entry per
/// pattern. No declared categories yields an empty list rather than an
/// error: `--get-regexp` reports "no matches" by exit code 1.
pub fn list(out: &GitOutput) -> (r: Result<Vec<Category>, GigError>)
    ensures
        out.success ==> listing_result(r, parse_listing(lines(out.stdout@))),
        !out.success && out.code == Some(1i32) ==> (r matches Ok(cs) && cs@.len() == 0),
        !out.success && out.code != Some(1i32) ==> (r matches Err(e) && failed(
            e,
            seq!["config"@, "--get-regexp"@, ENUMERATE_PATTERN@],
            *out,
        )),
{
    if out.success {
        let ls = lines_of(&chars_of(out.stdout.as_str()));
        let ghost all = ls.deep_view();
        let mut cats: Vec<Category> = Vec::new();
        let n = ls.len();
        assert(all.skip(0) =~= all);
        for i in 0..n
            invariant
                n == ls@.len(),
                all == ls.deep_view(),
                all == lines(out.stdout@),
                out.success,
                parse_listing(all) == match parse_listing(all.skip(i as int)) {
                    Ok(t) => Ok(category_views(cats@) + t),
                    Err(k) => Err(k),
                },
        {
            assert(all.skip(i as int).drop_first() =~= all.skip(i + 1));
            assert(all.skip(i as int)[0] == ls@[i as int]@);
            match parse_entry_line(ls[i].as_str()) {
                Ok(c) => {
                    let ghost before = cats@;
                    cats.push(c);
                    assert(category_views(cats@) =~= category_views(before) + seq![
                        (c.name@, c.pattern@),
                    ]);
                    assert forall|t: Seq<(Seq<char>, Seq<char>)>|
                        true implies category_views(before) + (seq![(c.name@, c.pattern@)] + t)
                        == category_views(cats@) + t by {
                        assert(category_views(before) + (seq![(c.name@, c.pattern@)] + t)
                            =~= category_views(cats@) + t);
                    }
                },
                Err(e) => {
                    return Err(e);
                },
            }
        }
        assert(all.skip(n as int) =~= Seq::<Seq<char>>::empty());
        assert(category_views(cats@) + Seq::<(Seq<char>, Seq<char>)>::empty() =~= category_views(
            cats@,
        ));
        Ok(cats)
    } else if out.code == Some(1i32) {
        Ok(Vec::new())
    } else {
        Err(
            failure(
                &GitCommand::ConfigGetRegexp { pattern: ENUMERATE_PATTERN.to_owned() },
                out,
            ),
        )
    }
}

/// Every pattern currently declared for `name`, in declaration/add order,
/// from what `git config --get-all <key(name)>` reported. An empty list
/// means `name` isn't declared at all - a flag-only category still yields
/// one entry (a single empty string), matching how it's stored.
pub fn patterns(name: &str, out: &GitOutput) -> (r: Result<Vec<String>, GigError>)
    ensures
        out.success ==> (r matches Ok(v) && v.deep_view() == lines(out.stdout@)),
        !out.success && out.code == Some(1i32) ==> (r matches Ok(v) && v@.len() == 0),
        !out.success && out.code != Some(1i32) ==> (r matches Err(e) && failed(
            e,
            seq!["config"@, "--get-all"@, category_key(name@)],
            *out,
        )),
{
    let k = key(name);
    get_all(k.as_str(), out)
}

/// Rejects a category `name` that could escape `root-dir` when interpolated
/// as a raw path segment (`root-dir/<name>/host/owner/repo`): `/`, `\`, or
/// `..` anywhere in `name`. Only gates declaring or updating a category;
/// reading or listing an already-declared one never calls this.
pub fn validate_name(name: &str) -> (r: Result<(), GigError>)
    ensures
        r is Ok <==> !path_unsafe(name@),
        r matches Err(e) ==> e matches GigError::UnsafeCategoryName { name: n } && n@ == name@,
{
    let v = chars_of(name);
    let n = v.len();
    let mut i: usize = 0;
    while i < n
        invariant
            n == v@.len(),
            v@ == name@,
            i <= n,
            forall|j: int| 0 <= j < i ==> v@[j] != '/' && v@[j] != '\\',
            forall|j: int| 0 <= j < i && j + 1 < n ==> !(#[trigger] v@[j] == '.' && v@[j + 1] == '.'),
        decreases n - i,
    {
        if v[i] == '/' || v[i] == '\\' || (i + 1 < n && v[i] == '.' && v[i + 1] == '.') {
            assert(path_unsafe(name@)) by {
                if v@[i as int] == '/' {
                    assert(name@.contains('/'));
                } else if v@[i as int] == '\\' {
                    assert(name@.contains('\\'));
                }
            }
            return Err(GigError::UnsafeCategoryName { name: name.to_owned() });
        }
        i = i + 1;
    }
    assert(!path_unsafe(name@)) by {
        if name@.contains('/') {
            let j = choose|j: int| 0 <= j < name@.len() && name@[j] == '/';
            assert(v@[j] != '/');
        }
        if name@.contains('\\') {
            let j = choose|j: int| 0 <= j < name@.len() && name@[j] == '\\';
            assert(v@[j] != '\\');
        }
    }
    Ok(())
}

} // verus!

verus! {

/// A change a `git config` invocation makes to the config store, or none.
pub enum ConfigEdit {
    SetValue { key: Seq<char>, value: Seq<char> },
    ReplaceAll { key: Seq<char>, value: Seq<char> },
    Add { key: Seq<char>, value: Seq<char> },
    Unset { key: Seq<char> },
    ReadOnly,
}

/// The change an invocation makes to the config store.
pub open spec fn edit_of(c: GitCommand) -> ConfigEdit {
    match c {
        GitCommand::ConfigSetGlobal { key, value } => ConfigEdit::SetValue { key: key@, value: value@ },
        GitCommand::ConfigAddGlobal { key, value } => ConfigEdit::Add { key: key@, value: value@ },
        GitCommand::ConfigReplaceAllGlobal { key, value } => ConfigEdit::ReplaceAll {
            key: key@,
            value: value@,
        },
        GitCommand::ConfigUnsetGlobal { key } => ConfigEdit::Unset { key: key@ },
        _ => ConfigEdit::ReadOnly,
    }
}

/// The config edits a list of invocations makes, one per invocation.
pub open spec fn edits_of(cs: Seq<GitCommand>) -> Seq<ConfigEdit> {
    cs.map_values(|c: GitCommand| edit_of(c))
}

/// The values a config store holds for `key`, in order; none when unset.
pub open spec fn values_of(store: Map<Seq<char>, Seq<Seq<char>>>, key: Seq<char>) -> Seq<
    Seq<char>,
> {
    if store.dom().contains(key) {
        store[key]
    } else {
        Seq::empty()
    }
}

/// The store after one edit, as git documents it: `--global <key> <value>`
/// writes the single value and refuses a key that holds several;
/// `--replace-all` leaves `value` as the only one; `--add` appends;
/// `--unset` removes a key holding at most one value.
pub open spec fn apply_edit(store: Map<Seq<char>, Seq<Seq<char>>>, e: ConfigEdit) -> Option<
    Map<Seq<char>, Seq<Seq<char>>>,
> {
    match e {
        ConfigEdit::SetValue { key, value } => if values_of(store, key).len() <= 1 {
            Some(store.insert(key, seq![value]))
        } else {
            None
        },
        ConfigEdit::ReplaceAll { key, value } => Some(store.insert(key, seq![value])),
        ConfigEdit::Add { key, value } => Some(store.insert(key, values_of(store, key).push(value))),
        ConfigEdit::Unset { key } => if values_of(store, key).len() <= 1 {
            Some(store.remove(key))
        } else {
            None
        },
        ConfigEdit::ReadOnly => Some(store),
    }
}

/// The store after edits applied in order; `None` once one of them fails.
pub open spec fn apply_edits(store: Map<Seq<char>, Seq<Seq<char>>>, es: Seq<ConfigEdit>) -> Option<
    Map<Seq<char>, Seq<Seq<char>>>,
>
    decreases es.len(),
{
    if es.len() == 0 {
        Some(store)
    } else {
        match apply_edit(store, es[0]) {
            Some(s) => apply_edits(s, es.drop_first()),
            None => None,
        }
    }
}

/// Appending edits for each of `values`.
pub open spec fn add_all(key: Seq<char>, values: Seq<Seq<char>>) -> Seq<ConfigEdit> {
    values.map_values(|v: Seq<char>| ConfigEdit::Add { key, value: v })
}

/// The edits `replace` plans: one plain set while neither the old nor the
/// new list holds more than one value (plain `--global` refuses to
/// overwrite a multi-valued key), otherwise `--replace-all` with the first
/// pattern followed by `--add` for the rest; none for an empty list.
pub open spec fn replace_edits(
    key: Seq<char>,
    existing: Seq<Seq<char>>,
    patterns: Seq<Seq<char>>,
) -> Option<Seq<ConfigEdit>> {
    if patterns.len() == 0 {
        None
    } else if existing.len() <= 1 && patterns.len() == 1 {
        Some(seq![ConfigEdit::SetValue { key, value: patterns[0] }])
    } else {
        Some(
            seq![ConfigEdit::ReplaceAll { key, value: patterns[0] }] + add_all(
                key,
                patterns.drop_first(),
            ),
        )
    }
}

/// The patterns of `patterns` that `add` appends to `current`: each one not
/// already present (counting those appended before it), in order.
pub open spec fn new_patterns(current: Seq<Seq<char>>, patterns: Seq<Seq<char>>) -> Seq<Seq<char>>
    decreases patterns.len(),
{
    if patterns.len() == 0 {
        Seq::empty()
    } else if current.contains(patterns[0]) {
        new_patterns(current, patterns.drop_first())
    } else {
        seq![patterns[0]] + new_patterns(current.push(patterns[0]), patterns.drop_first())
    }
}

/// Whether `s` is one of `v`.
pub(crate) fn contains_string(v: &Vec<String>, s: &String) -> (b: bool)
    ensures
        b == v.deep_view().contains(s@),
{
    let n = v.len();
    for i in 0..n
        invariant
            n == v@.len(),
            forall|j: int| 0 <= j < i ==> v@[j]@ != s@,
    {
        if v[i] == *s {
            assert(v.deep_view()[i as int] == s@);
            return true;
        }
    }
    assert(!v.deep_view().contains(s@)) by {
        if v.deep_view().contains(s@) {
            let j = choose|j: int| 0 <= j < v.deep_view().len() && v.deep_view()[j] == s@;
            assert(v@[j]@ == s@);
        }
    }
    false
}

/// The `git config` writes that replace `name`'s entire pattern list with
/// `patterns` (non-empty - a flag-only declaration is `[""]`). `existing`
/// is `name`'s pattern list before this call, as the caller already read
/// it. Plain `git config --global` can only ever hold one value and errors
/// if the key holds more than one, so once either list has more than one
/// entry this falls back to `--replace-all` with the first pattern and
/// `--add` for the rest.
pub fn replace(name: &str, existing: &Vec<String>, patterns: &Vec<String>) -> (r: Result<
    Vec<GitCommand>,
    GigError,
>)
    ensures
        match replace_edits(category_key(name@), existing.deep_view(), patterns.deep_view()) {
            Some(es) => r matches Ok(cs) && edits_of(cs@) == es,
            None => r == Err::<Vec<GitCommand>, GigError>(GigError::NoPatterns),
        },
{
    let k = key(name);
    if patterns.len() == 0 {
        return Err(GigError::NoPatterns);
    }
    let mut cs: Vec<GitCommand> = Vec::new();
    if existing.len() <= 1 && patterns.len() == 1 {
        cs.push(GitCommand::ConfigSetGlobal { key: k, value: patterns[0].clone() });
        assert(edits_of(cs@) =~= seq![
            ConfigEdit::SetValue { key: category_key(name@), value: patterns.deep_view()[0] },
        ]);
        return Ok(cs);
    }
    cs.push(GitCommand::ConfigReplaceAllGlobal { key: k.clone(), value: patterns[0].clone() });
    let ghost rest = patterns.deep_view().drop_first();
    let n = patterns.len();
    for i in 1..n
        invariant
            n == patterns@.len(),
            n >= 1,
            k@ == category_key(name@),
            rest == patterns.deep_view().drop_first(),
            edits_of(cs@) == seq![
                ConfigEdit::ReplaceAll { key: category_key(name@), value: patterns.deep_view()[0] },
            ] + add_all(category_key(name@), rest.take(i - 1)),
    {
        let ghost before = cs@;
        cs.push(GitCommand::ConfigAddGlobal { key: k.clone(), value: patterns[i].clone() });
        assert(rest.take(i as int) =~= rest.take(i - 1).push(patterns@[i as int]@));
        assert(edits_of(cs@) =~= edits_of(before).push(
            ConfigEdit::Add { key: category_key(name@), value: patterns@[i as int]@ },
        ));
        assert(add_all(category_key(name@), rest.take(i as int)) =~= add_all(
            category_key(name@),
            rest.take(i - 1),
        ).push(ConfigEdit::Add { key: category_key(name@), value: patterns@[i as int]@ }));
    }
    assert(rest.take(n - 1) =~= rest);
    Ok(cs)
}

/// The `git config --add` writes that append `patterns` to `name`'s
/// existing list (`existing`, as the caller already read it), skipping any
/// pattern already present verbatim - so re-running the same add doesn't
/// grow the list. Assumes the caller has checked that `name` is declared;
/// `add` never creates a category.
pub fn add(name: &str, existing: &Vec<String>, patterns: &Vec<String>) -> (cs: Vec<GitCommand>)
    ensures
        edits_of(cs@) == add_all(
            category_key(name@),
            new_patterns(existing.deep_view(), patterns.deep_view()),
        ),
{
    let k = key(name);
    let mut current = existing.clone();
    assert(current.deep_view() =~= existing.deep_view());
    let mut cs: Vec<GitCommand> = Vec::new();
    let ghost mut added: Seq<Seq<char>> = Seq::empty();
    let ghost ps = patterns.deep_view();
    let n = patterns.len();
    assert(ps.skip(0) =~= ps);
    assert(added + new_patterns(current.deep_view(), ps) =~= new_patterns(current.deep_view(), ps));
    for i in 0..n
        invariant
            n == patterns@.len(),
            ps == patterns.deep_view(),
            k@ == category_key(name@),
            new_patterns(existing.deep_view(), ps) == added + new_patterns(
                current.deep_view(),
                ps.skip(i as int),
            ),
            edits_of(cs@) == add_all(category_key(name@), added),
    {
        let p = &patterns[i];
        assert(ps.skip(i as int)[0] == p@);
        assert(ps.skip(i as int).drop_first() =~= ps.skip(i + 1));
        if !contains_string(&current, p) {
            let ghost before_cs = cs@;
            let ghost before_cur = current.deep_view();
            cs.push(GitCommand::ConfigAddGlobal { key: k.clone(), value: p.clone() });
            current.push(p.clone());
            assert(current.deep_view() =~= before_cur.push(p@));
            assert(edits_of(cs@) =~= edits_of(before_cs).push(
                ConfigEdit::Add { key: category_key(name@), value: p@ },
            ));
            assert(add_all(category_key(name@), added.push(p@)) =~= add_all(
                category_key(name@),
                added,
            ).push(ConfigEdit::Add { key: category_key(name@), value: p@ }));
            assert(added + (seq![p@] + new_patterns(current.deep_view(), ps.skip(i + 1)))
                =~= added.push(p@) + new_patterns(current.deep_view(), ps.skip(i + 1)));
            proof {
                added = added.push(p@);
            }
        }
    }
    assert(ps.skip(n as int) =~= Seq::<Seq<char>>::empty());
    assert(added + Seq::<Seq<char>>::empty() =~= added);
    cs
}

} // verus!

verus! {

/// Appending each of `values` to `key`, one `--add` at a time, leaves `key`
/// holding its old values followed by `values`, and every other key as it
/// was.
pub proof fn lemma_apply_adds(
    store: Map<Seq<char>, Seq<Seq<char>>>,
    key: Seq<char>,
    values: Seq<Seq<char>>,
)
    ensures
        apply_edits(store, add_all(key, values)) is Some,
        values_of(apply_edits(store, add_all(key, values))->0, key) == values_of(store, key)
            + values,
        forall|other: Seq<char>|
            other != key ==> #[trigger] values_of(apply_edits(store, add_all(key, values))->0, other)
                == values_of(store, other),
    decreases values.len(),
{
    if values.len() == 0 {
        assert(add_all(key, values) =~= Seq::<ConfigEdit>::empty());
        assert(values_of(store, key) + values =~= values_of(store, key));
    } else {
        let s1 = store.insert(key, values_of(store, key).push(values[0]));
        assert(add_all(key, values).drop_first() =~= add_all(key, values.drop_first()));
        assert(apply_edit(store, add_all(key, values)[0]) == Some(s1));
        lemma_apply_adds(s1, key, values.drop_first());
        assert(values_of(s1, key) == values_of(store, key).push(values[0]));
        assert(values_of(store, key).push(values[0]) + values.drop_first() =~= values_of(store, key)
            + values);
        assert forall|other: Seq<char>| other != key implies #[trigger] values_of(s1, other)
            == values_of(store, other) by {
            assert(s1.dom().contains(other) == store.dom().contains(other));
        }
    }
}

/// Replacing a category's patterns with a non-empty list leaves exactly
/// that list under its key, in order, and every other key as it was.
pub proof fn law_replace_sets_patterns(
    store: Map<Seq<char>, Seq<Seq<char>>>,
    name: Seq<char>,
    patterns: Seq<Seq<char>>,
)
    requires
        patterns.len() > 0,
    ensures
        ({
            let key = category_key(name);
            let after = apply_edits(
                store,
                replace_edits(key, values_of(store, key), patterns)->0,
            );
            &&& after is Some
            &&& values_of(after->0, key) == patterns
            &&& forall|other: Seq<char>|
                other != key ==> #[trigger] values_of(after->0, other) == values_of(store, other)
        }),
{
    let key = category_key(name);
    let existing = values_of(store, key);
    let s1 = store.insert(key, seq![patterns[0]]);
    assert forall|other: Seq<char>| other != key implies #[trigger] values_of(s1, other)
        == values_of(store, other) by {
        assert(s1.dom().contains(other) == store.dom().contains(other));
    }
    if existing.len() <= 1 && patterns.len() == 1 {
        let es = seq![ConfigEdit::SetValue { key, value: patterns[0] }];
        assert(es.drop_first() =~= Seq::<ConfigEdit>::empty());
        assert(apply_edit(store, es[0]) == Some(s1));
        assert(apply_edits(s1, Seq::<ConfigEdit>::empty()) == Some(s1));
        assert(apply_edits(store, es) == Some(s1));
        assert(seq![patterns[0]] =~= patterns);
    } else {
        let es = seq![ConfigEdit::ReplaceAll { key, value: patterns[0] }] + add_all(
            key,
            patterns.drop_first(),
        );
        assert(es.drop_first() =~= add_all(key, patterns.drop_first()));
        lemma_apply_adds(s1, key, patterns.drop_first());
        assert(seq![patterns[0]] + patterns.drop_first() =~= patterns);
        assert(apply_edits(store, es) == apply_edits(s1, add_all(key, patterns.drop_first())));
    }
}

/// Every pattern offered to `add` is present afterwards, nothing already
/// present is appended again, and the appended ones are distinct.
pub proof fn lemma_new_patterns(current: Seq<Seq<char>>, patterns: Seq<Seq<char>>)
    ensures
        forall|p: Seq<char>|
            patterns.contains(p) ==> #[trigger] (current + new_patterns(current, patterns)).contains(
                p,
            ),
        forall|p: Seq<char>|
            #[trigger] new_patterns(current, patterns).contains(p) ==> !current.contains(p),
        new_patterns(current, patterns).no_duplicates(),
        forall|p: Seq<char>|
            patterns.contains(p) ==> #[trigger] current.contains(p) || new_patterns(
                current,
                patterns,
            ).contains(p),
    decreases patterns.len(),
{
    if patterns.len() == 0 {
    } else {
        let p0 = patterns[0];
        let rest = patterns.drop_first();
        if current.contains(p0) {
            lemma_new_patterns(current, rest);
            assert forall|p: Seq<char>| patterns.contains(p) implies #[trigger] (current
                + new_patterns(current, patterns)).contains(p) by {
                let j = choose|j: int| 0 <= j < patterns.len() && patterns[j] == p;
                if j == 0 {
                    let a = choose|a: int| 0 <= a < current.len() && current[a] == p;
                    assert((current + new_patterns(current, patterns))[a] == p);
                } else {
                    assert(rest[j - 1] == p);
                }
            }
            assert forall|p: Seq<char>| patterns.contains(p) implies #[trigger] current.contains(p)
                || new_patterns(current, patterns).contains(p) by {
                let j = choose|j: int| 0 <= j < patterns.len() && patterns[j] == p;
                if j > 0 {
                    assert(rest[j - 1] == p);
                }
            }
        } else {
            let next = current.push(p0);
            lemma_new_patterns(next, rest);
            let tail = new_patterns(next, rest);
            assert(new_patterns(current, patterns) == seq![p0] + tail);
            assert(current + (seq![p0] + tail) =~= next + tail);
            assert forall|p: Seq<char>| patterns.contains(p) implies #[trigger] (current
                + new_patterns(current, patterns)).contains(p) by {
                let j = choose|j: int| 0 <= j < patterns.len() && patterns[j] == p;
                if j == 0 {
                    assert(next[current.len() as int] == p);
                    assert((next + tail)[current.len() as int] == p);
                } else {
                    assert(rest[j - 1] == p);
                }
            }
            assert forall|p: Seq<char>| #[trigger] new_patterns(current, patterns).contains(p)
                implies !current.contains(p) by {
                let j = choose|j: int|
                    0 <= j < new_patterns(current, patterns).len() && new_patterns(
                        current,
                        patterns,
                    )[j] == p;
                if j == 0 {
                    assert(new_patterns(current, patterns)[0] == p0);
                } else {
                    assert(tail[j - 1] == p);
                    assert(tail.contains(p));
                    assert(!next.contains(p));
                    if current.contains(p) {
                        let a = choose|a: int| 0 <= a < current.len() && current[a] == p;
                        assert(next[a] == p);
                        assert(next.contains(p));
                    }
                }
            }
            assert(new_patterns(current, patterns).no_duplicates()) by {
                let np = new_patterns(current, patterns);
                assert forall|i: int, j: int| 0 <= i < np.len() && 0 <= j < np.len() && i != j
                    implies np[i] != np[j] by {
                    if i == 0 && j > 0 {
                        assert(np[j] == tail[j - 1]);
                        assert(tail.contains(tail[j - 1]));
                        assert(next[current.len() as int] == p0);
                    } else if j == 0 && i > 0 {
                        assert(np[i] == tail[i - 1]);
                        assert(tail.contains(tail[i - 1]));
                        assert(next[current.len() as int] == p0);
                    } else if i > 0 && j > 0 {
                        assert(np[i] == tail[i - 1]);
                        assert(np[j] == tail[j - 1]);
                    }
                }
            }
            assert forall|p: Seq<char>| patterns.contains(p) implies #[trigger] current.contains(p)
                || new_patterns(current, patterns).contains(p) by {
                let j = choose|j: int| 0 <= j < patterns.len() && patterns[j] == p;
                if j == 0 {
                    assert(new_patterns(current, patterns)[0] == p);
                } else {
                    assert(rest[j - 1] == p);
                    if !next.contains(p) {
                        let b = choose|b: int| 0 <= b < tail.len() && tail[b] == p;
                        assert(new_patterns(current, patterns)[b + 1] == p);
                    } else {
                        let a = choose|a: int| 0 <= a < next.len() && next[a] == p;
                        if a < current.len() {
                            assert(current[a] == p);
                        } else {
                            assert(new_patterns(current, patterns)[0] == p);
                        }
                    }
                }
            }
        }
    }
}

/// Nothing is new when every offered pattern is already present.
pub proof fn lemma_new_patterns_none(current: Seq<Seq<char>>, patterns: Seq<Seq<char>>)
    requires
        forall|p: Seq<char>| patterns.contains(p) ==> #[trigger] current.contains(p),
    ensures
        new_patterns(current, patterns).len() == 0,
    decreases patterns.len(),
{
    if patterns.len() > 0 {
        assert(patterns.contains(patterns[0]));
        let rest = patterns.drop_first();
        assert forall|p: Seq<char>| rest.contains(p) implies #[trigger] current.contains(p) by {
            let j = choose|j: int| 0 <= j < rest.len() && rest[j] == p;
            assert(patterns[j + 1] == p);
        }
        lemma_new_patterns_none(current, rest);
    }
}

/// Adding patterns to a category appends, after its existing patterns,
/// exactly those not already present; every offered pattern is then
/// present, a list free of duplicates stays free of them, and no other key
/// changes.
pub proof fn law_add_appends_missing_patterns(
    store: Map<Seq<char>, Seq<Seq<char>>>,
    name: Seq<char>,
    patterns: Seq<Seq<char>>,
)
    ensures
        ({
            let key = category_key(name);
            let existing = values_of(store, key);
            let after = apply_edits(store, add_all(key, new_patterns(existing, patterns)));
            &&& after is Some
            &&& values_of(after->0, key) == existing + new_patterns(existing, patterns)
            &&& forall|p: Seq<char>|
                patterns.contains(p) ==> #[trigger] values_of(after->0, key).contains(p)
            &&& existing.no_duplicates() ==> values_of(after->0, key).no_duplicates()
            &&& forall|other: Seq<char>|
                other != key ==> #[trigger] values_of(after->0, other) == values_of(store, other)
        }),
{
    let key = category_key(name);
    let existing = values_of(store, key);
    let np = new_patterns(existing, patterns);
    lemma_apply_adds(store, key, np);
    lemma_new_patterns(existing, patterns);
    if existing.no_duplicates() {
        let all = existing + np;
        assert forall|i: int, j: int| 0 <= i < all.len() && 0 <= j < all.len() && i != j implies all[i]
            != all[j] by {
            if i < existing.len() && j >= existing.len() {
                assert(all[j] == np[j - existing.len()]);
                assert(np.contains(np[j - existing.len()]));
                assert(existing.contains(all[i]));
            } else if j < existing.len() && i >= existing.len() {
                assert(all[i] == np[i - existing.len()]);
                assert(np.contains(np[i - existing.len()]));
                assert(existing.contains(all[j]));
            } else if i >= existing.len() && j >= existing.len() {
                assert(all[i] == np[i - existing.len()]);
                assert(all[j] == np[j - existing.len()]);
            }
        }
    }
}

/// Adding the same patterns a second time changes nothing: the second add
/// plans no writes at all.
pub proof fn law_add_is_idempotent(existing: Seq<Seq<char>>, patterns: Seq<Seq<char>>)
    ensures
        new_patterns(existing + new_patterns(existing, patterns), patterns).len() == 0,
{
    lemma_new_patterns(existing, patterns);
    lemma_new_patterns_none(existing + new_patterns(existing, patterns), patterns);
}

/// `--get-regexp` prints a category key and its pattern separated by a
/// space; parsing such a line gives back the name and the pattern, for any
/// name free of spaces.
pub proof fn law_entry_line_round_trip(name: Seq<char>, pattern: Seq<char>)
    requires
        !name.contains(' '),
    ensures
        name_of_key(entry_key(category_key(name) + seq![' '] + pattern)) == Some(name),
        entry_value(category_key(name) + seq![' '] + pattern) == pattern,
{
    reveal_strlit("gig.category.");
    reveal_strlit(".pattern");
    let k = category_key(name);
    assert forall|j: int| 0 <= j < k.len() implies k[j] != ' ' by {
        if j >= 13 && j < 13 + name.len() {
            assert(k[j] == name[j - 13]);
            if name[j - 13] == ' ' {
                assert(name.contains(' '));
            }
        }
    }
    let line = k + (seq![' '] + pattern);
    assert(line =~= k + seq![' '] + pattern);
    crate::text::lemma_first_index_at(k, seq![' '] + pattern, ' ');
    assert(line.take(k.len() as int) =~= k);
    assert(line.skip(k.len() as int + 1) =~= pattern);
    let rest = k.skip(13);
    assert(rest =~= name + ".pattern"@);
    assert(".pattern"@.is_suffix_of(rest)) by {
        assert(rest.subrange(rest.len() - 8, rest.len() as int) =~= ".pattern"@);
    }
    assert(rest.take(rest.len() - 8) =~= name);
    assert("gig.category."@.is_prefix_of(k)) by {
        assert(k.subrange(0, 13) =~= "gig.category."@);
    }
}

} // verus!
