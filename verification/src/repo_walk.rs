//! The repos `list` and `cd` offer: every `.git`-holding directory found
//! under `root-dir`, as a path relative to it, in path order, each shown as
//! a `host/owner/repo` identifier. A repo's path is its sequence of
//! components. The walk over the filesystem is decided here step by step
//! ([`walk_step`], [`children`]); the caller reads the directories.
use vstd::prelude::*;
use vstd::seq_lib::*;
use crate::text::{chars_of, join_strings, join_with};

verus! {

broadcast use vstd::seq_lib::group_to_multiset_ensures;

/// Strict lexicographic order of two names by character code, which for
/// UTF-8 text is the byte order paths compare their components by.
pub open spec fn chars_lt(a: Seq<char>, b: Seq<char>) -> bool
    decreases a.len(),
{
    if a.len() == 0 {
        b.len() > 0
    } else if b.len() == 0 {
        false
    } else if a[0] != b[0] {
        (a[0] as u32) < (b[0] as u32)
    } else {
        chars_lt(a.drop_first(), b.drop_first())
    }
}

/// Strict order of two relative paths: component by component, as
/// `Path`'s ordering compares them.
pub open spec fn path_lt(a: Seq<Seq<char>>, b: Seq<Seq<char>>) -> bool
    decreases a.len(),
{
    if a.len() == 0 {
        b.len() > 0
    } else if b.len() == 0 {
        false
    } else if a[0] != b[0] {
        chars_lt(a[0], b[0])
    } else {
        path_lt(a.drop_first(), b.drop_first())
    }
}

/// No path comes after a later one.
pub open spec fn sorted_paths(s: Seq<Seq<Seq<char>>>) -> bool {
    forall|i: int, j: int| 0 <= i < j < s.len() ==> !path_lt(#[trigger] s[j], #[trigger] s[i])
}

/// No name comes before itself.
pub proof fn lemma_chars_lt_irreflexive(a: Seq<char>)
    ensures
        !chars_lt(a, a),
    decreases a.len(),
{
    if a.len() > 0 {
        lemma_chars_lt_irreflexive(a.drop_first());
    }
}

/// The order of names is transitive.
pub proof fn lemma_chars_lt_transitive(a: Seq<char>, b: Seq<char>, c: Seq<char>)
    requires
        chars_lt(a, b),
        chars_lt(b, c),
    ensures
        chars_lt(a, c),
    decreases a.len(),
{
    if a.len() > 0 && b.len() > 0 && c.len() > 0 && a[0] == b[0] && b[0] == c[0] {
        lemma_chars_lt_transitive(a.drop_first(), b.drop_first(), c.drop_first());
    }
}

/// No path comes before itself.
pub proof fn lemma_path_lt_irreflexive(a: Seq<Seq<char>>)
    ensures
        !path_lt(a, a),
    decreases a.len(),
{
    if a.len() > 0 {
        lemma_path_lt_irreflexive(a.drop_first());
    }
}

/// The order of paths is transitive.
pub proof fn lemma_path_lt_transitive(a: Seq<Seq<char>>, b: Seq<Seq<char>>, c: Seq<Seq<char>>)
    requires
        path_lt(a, b),
        path_lt(b, c),
    ensures
        path_lt(a, c),
    decreases a.len(),
{
    if a.len() > 0 && b.len() > 0 && c.len() > 0 {
        if a[0] == b[0] && b[0] == c[0] {
            lemma_path_lt_transitive(a.drop_first(), b.drop_first(), c.drop_first());
        } else if a[0] == b[0] {
            assert(chars_lt(b[0], c[0]));
        } else if b[0] == c[0] {
            assert(chars_lt(a[0], b[0]));
        } else {
            lemma_chars_lt_transitive(a[0], b[0], c[0]);
            if a[0] == c[0] {
                lemma_chars_lt_irreflexive(a[0]);
            }
        }
    }
}

/// Of two paths, at most one comes before the other.
pub proof fn lemma_path_lt_asymmetric(a: Seq<Seq<char>>, b: Seq<Seq<char>>)
    requires
        path_lt(a, b),
    ensures
        !path_lt(b, a),
{
    if path_lt(b, a) {
        lemma_path_lt_transitive(a, b, a);
        lemma_path_lt_irreflexive(a);
    }
}

proof fn lemma_chars_lt_skip(a: Seq<char>, b: Seq<char>, i: int)
    requires
        0 <= i <= a.len(),
        i <= b.len(),
        forall|j: int| 0 <= j < i ==> a[j] == b[j],
    ensures
        chars_lt(a, b) == chars_lt(a.skip(i), b.skip(i)),
    decreases i,
{
    if i > 0 {
        assert(a[0] == b[0]);
        assert(a.drop_first().skip(i - 1) =~= a.skip(i));
        assert(b.drop_first().skip(i - 1) =~= b.skip(i));
        lemma_chars_lt_skip(a.drop_first(), b.drop_first(), i - 1);
    } else {
        assert(a.skip(0) =~= a);
        assert(b.skip(0) =~= b);
    }
}

proof fn lemma_path_lt_skip(a: Seq<Seq<char>>, b: Seq<Seq<char>>, i: int)
    requires
        0 <= i <= a.len(),
        i <= b.len(),
        forall|j: int| 0 <= j < i ==> a[j] == b[j],
    ensures
        path_lt(a, b) == path_lt(a.skip(i), b.skip(i)),
    decreases i,
{
    if i > 0 {
        assert(a[0] == b[0]);
        assert(a.drop_first().skip(i - 1) =~= a.skip(i));
        assert(b.drop_first().skip(i - 1) =~= b.skip(i));
        lemma_path_lt_skip(a.drop_first(), b.drop_first(), i - 1);
    } else {
        assert(a.skip(0) =~= a);
        assert(b.skip(0) =~= b);
    }
}

/// Whether `a` comes strictly before `b` by character code.
pub fn str_lt(a: &str, b: &str) -> (r: bool)
    ensures
        r == chars_lt(a@, b@),
{
    let x = chars_of(a);
    let y = chars_of(b);
    let mut i: usize = 0;
    while i < x.len() && i < y.len() && x[i] == y[i]
        invariant
            i <= x@.len(),
            i <= y@.len(),
            forall|j: int| 0 <= j < i ==> x@[j] == y@[j],
        decreases x@.len() - i,
    {
        i = i + 1;
    }
    proof {
        lemma_chars_lt_skip(x@, y@, i as int);
    }
    if i == x.len() {
        i < y.len()
    } else if i == y.len() {
        false
    } else {
        assert(x@.skip(i as int)[0] == x@[i as int]);
        assert(y@.skip(i as int)[0] == y@[i as int]);
        (x[i] as u32) < (y[i] as u32)
    }
}

/// Whether relative path `a` comes strictly before `b`.
pub fn path_less(a: &Vec<String>, b: &Vec<String>) -> (r: bool)
    ensures
        r == path_lt(a.deep_view(), b.deep_view()),
{
    let ghost x = a.deep_view();
    let ghost y = b.deep_view();
    let mut i: usize = 0;
    while i < a.len() && i < b.len() && a[i] == b[i]
        invariant
            x == a.deep_view(),
            y == b.deep_view(),
            i <= a@.len(),
            i <= b@.len(),
            forall|j: int| 0 <= j < i ==> x[j] == y[j],
        decreases a@.len() - i,
    {
        assert(x[i as int] == y[i as int]);
        i = i + 1;
    }
    proof {
        lemma_path_lt_skip(x, y, i as int);
    }
    if i == a.len() {
        i < b.len()
    } else if i == b.len() {
        false
    } else {
        assert(x.skip(i as int)[0] == x[i as int]);
        assert(y.skip(i as int)[0] == y[i as int]);
        assert(x[i as int] != y[i as int]);
        str_lt(a[i].as_str(), b[i].as_str())
    }
}

/// A repo's relative path as a `host/owner/repo` identifier: its
/// components joined by `/` on every platform, matching how category
/// patterns are written.
pub fn display(relative: &Vec<String>) -> (s: String)
    ensures
        s@ == join_with(relative.deep_view(), '/'),
{
    join_strings(relative, '/')
}

/// The repos found under `root-dir` (relative paths, in any order) put in
/// path order: the same repos, each as often as it was found, with no path
/// after a later one.
pub fn find_repos(found: Vec<Vec<String>>) -> (r: Vec<Vec<String>>)
    ensures
        r.deep_view().to_multiset() == found.deep_view().to_multiset(),
        sorted_paths(r.deep_view()),
{
    let ghost input = found.deep_view();
    let mut r: Vec<Vec<String>> = Vec::new();
    let n = found.len();
    let mut rest = found;
    let mut taken: usize = 0;
    assert(r.deep_view() =~= Seq::<Seq<Seq<char>>>::empty());
    assert(input.take(0) =~= Seq::<Seq<Seq<char>>>::empty());
    while taken < n
        invariant
            n == input.len(),
            rest.deep_view() == input,
            taken <= n,
            r.deep_view().to_multiset() == input.take(taken as int).to_multiset(),
            sorted_paths(r.deep_view()),
        decreases n - taken,
    {
        let x = rest[taken].clone();
        assert(x.deep_view() == input[taken as int]);
        let ghost before = r.deep_view();
        let mut p: usize = 0;
        while p < r.len() && !path_less(&x, &r[p])
            invariant
                before == r.deep_view(),
                p <= r@.len(),
                forall|k: int| 0 <= k < p ==> !path_lt(x.deep_view(), #[trigger] before[k]),
            decreases r@.len() - p,
        {
            p = p + 1;
        }
        proof {
            if p < before.len() {
                assert(path_lt(x.deep_view(), before[p as int]));
            }
        }
        r.insert(p, x);
        let ghost after = r.deep_view();
        assert(after =~= before.insert(p as int, x.deep_view()));
        proof {
            assert(input.take(taken + 1) =~= input.take(taken as int).push(input[taken as int]));
            to_multiset_build(input.take(taken as int), input[taken as int]);
            to_multiset_insert(before, p as int, x.deep_view());
            assert forall|i: int, j: int| 0 <= i < j < after.len() implies !path_lt(
                #[trigger] after[j],
                #[trigger] after[i],
            ) by {
                let xv = x.deep_view();
                if j < p {
                    assert(after[i] == before[i] && after[j] == before[j]);
                } else if j == p {
                    assert(after[j] == xv && after[i] == before[i]);
                    if path_lt(xv, before[i]) {
                    }
                } else if i == p {
                    assert(after[i] == xv && after[j] == before[j - 1]);
                    if path_lt(before[j - 1], xv) {
                        assert(p < before.len());
                        if p < j - 1 {
                            lemma_path_lt_transitive(before[j - 1], xv, before[p as int]);
                            assert(!path_lt(before[j - 1], before[p as int]));
                        } else {
                            lemma_path_lt_asymmetric(xv, before[p as int]);
                        }
                    }
                } else if i < p {
                    assert(after[i] == before[i] && after[j] == before[j - 1]);
                } else {
                    assert(after[i] == before[i - 1] && after[j] == before[j - 1]);
                }
            }
        }
        taken = taken + 1;
    }
    assert(input.take(n as int) =~= input);
    r
}

/// The relative paths of the subdirectories `names` of the directory at
/// `relative`: that path with each name appended, in order.
pub open spec fn child_paths(relative: Seq<Seq<char>>, names: Seq<Seq<char>>) -> Seq<Seq<Seq<char>>> {
    names.map_values(|s: Seq<char>| relative.push(s))
}

/// What the walk does at a directory under `root-dir`.
#[derive(Debug, Clone, PartialEq, Eq)]
pub enum WalkStep {
    /// The directory is a repo: list it at this relative path, and search
    /// no further inside it (its working tree is never searched for clones).
    Repo { relative: Vec<String> },
    /// Not a repo: continue with each of its subdirectories ([`children`]).
    Descend,
}

/// The walk's decision at the directory at `relative` (its components
/// under `root-dir`, empty for `root-dir` itself), given whether it holds a
/// `.git` directory.
pub fn walk_step(relative: &Vec<String>, has_git_dir: bool) -> (r: WalkStep)
    ensures
        has_git_dir <==> r is Repo,
        r matches WalkStep::Repo { relative: p } ==> p.deep_view() == relative.deep_view(),
{
    if has_git_dir {
        WalkStep::Repo { relative: relative.clone() }
    } else {
        WalkStep::Descend
    }
}

/// The directories the walk continues with below the one at `relative`:
/// one per subdirectory name in `subdirs`, in the order given, each the
/// relative path with that name appended.
pub fn children(relative: &Vec<String>, subdirs: &Vec<String>) -> (r: Vec<Vec<String>>)
    ensures
        r.deep_view() == child_paths(relative.deep_view(), subdirs.deep_view()),
{
    let ghost base = relative.deep_view();
    let mut r: Vec<Vec<String>> = Vec::new();
    let n = subdirs.len();
    for i in 0..n
        invariant
            n == subdirs@.len(),
            base == relative.deep_view(),
            r.deep_view().len() == i,
            forall|j: int| 0 <= j < i ==> #[trigger] r.deep_view()[j] == base.push(subdirs@[j]@),
    {
        let mut child = relative.clone();
        assert(child.deep_view() =~= base);
        child.push(subdirs[i].clone());
        assert(child.deep_view() =~= base.push(subdirs@[i as int]@));
        let ghost before = r.deep_view();
        r.push(child);
        assert(r.deep_view() =~= before.push(base.push(subdirs@[i as int]@)));
    }
    assert(r.deep_view() =~= subdirs.deep_view().map_values(|s: Seq<char>| base.push(s)));
    r
}

/// A directory tree, as the walk sees it: whether the directory holds a
/// `.git` directory, and its subdirectories with their names.
pub struct DirTree {
    pub has_git_dir: bool,
    pub subdirs: Seq<(Seq<char>, DirTree)>,
}

/// The names of the subdirectories `subs`, in order.
pub open spec fn names_of(subs: Seq<(Seq<char>, DirTree)>) -> Seq<Seq<char>> {
    subs.map_values(|e: (Seq<char>, DirTree)| e.0)
}

/// What the walk lists below the directory `t` at `relative`, iterating
/// [`walk_step`] and [`children`]: the directory itself when it holds
/// `.git` (its tree is not searched further); otherwise what is listed
/// below each subdirectory in turn, each at its path from [`children`].
pub open spec fn walk_from(t: DirTree, relative: Seq<Seq<char>>) -> Seq<Seq<Seq<char>>>
    decreases t,
{
    if t.has_git_dir {
        seq![relative]
    } else {
        walk_all(t.subdirs, relative)
    }
}

/// What the walk lists below each of the subdirectories `subs` of the
/// directory at `relative`, in order.
pub open spec fn walk_all(subs: Seq<(Seq<char>, DirTree)>, relative: Seq<Seq<char>>) -> Seq<
    Seq<Seq<char>>,
>
    decreases subs,
{
    if subs.len() == 0 {
        Seq::empty()
    } else {
        proof {
            assert(decreases_to!(subs => subs[0]));
            assert(decreases_to!(subs => subs.subrange(1, subs.len() as int)));
        }
        walk_from(subs[0].1, relative.push(subs[0].0)) + walk_all(
            subs.subrange(1, subs.len() as int),
            relative,
        )
    }
}

/// Whether the directory at relative path `p` below `t` is a repo that the
/// listing must show: it exists, holds `.git`, and no directory above it
/// (from `t` down) holds `.git`.
pub open spec fn outermost_repo(t: DirTree, p: Seq<Seq<char>>) -> bool
    decreases p.len(),
{
    if p.len() == 0 {
        t.has_git_dir
    } else {
        !t.has_git_dir && exists|i: int|
            0 <= i < t.subdirs.len() && #[trigger] t.subdirs[i].0 == p[0] && outermost_repo(
                t.subdirs[i].1,
                p.drop_first(),
            )
    }
}

/// No directory of the tree has two subdirectories of the same name.
pub open spec fn names_distinct(t: DirTree) -> bool
    decreases t,
{
    &&& names_of(t.subdirs).no_duplicates()
    &&& forall|i: int|
        0 <= i < t.subdirs.len() ==> {
            proof {
                assert(decreases_to!(t.subdirs => t.subdirs[i]));
            }
            names_distinct(#[trigger] t.subdirs[i].1)
        }
}

proof fn lemma_walk_from_contains(t: DirTree, relative: Seq<Seq<char>>, r: Seq<Seq<char>>)
    ensures
        walk_from(t, relative).contains(r) <==> (relative.len() <= r.len() && r.take(
            relative.len() as int,
        ) == relative && outermost_repo(t, r.skip(relative.len() as int))),
    decreases t, 1int,
{
    broadcast use vstd::seq_lib::group_seq_properties;

    let n = relative.len() as int;
    if t.has_git_dir {
        if walk_from(t, relative).contains(r) {
            assert(r == relative);
            assert(r.take(n) =~= relative);
            assert(r.skip(n) =~= Seq::<Seq<char>>::empty());
        }
        if relative.len() <= r.len() && r.take(n) == relative && outermost_repo(t, r.skip(n)) {
            assert(r.skip(n).len() == 0);
            assert(r =~= relative);
            assert(walk_from(t, relative)[0] == r);
        }
    } else {
        lemma_walk_all_contains(t.subdirs, relative, r);
        let p = r.skip(n);
        if relative.len() <= r.len() && r.take(n) == relative && p.len() > 0 {
            assert forall|i: int| 0 <= i < t.subdirs.len() implies (#[trigger] t.subdirs[i].0
                == p[0] && outermost_repo(t.subdirs[i].1, p.drop_first())) == (r.len() >= n + 1
                && r.take(n + 1) == relative.push(t.subdirs[i].0) && outermost_repo(
                t.subdirs[i].1,
                r.skip(n + 1),
            )) by {
                assert(p.drop_first() =~= r.skip(n + 1));
                if t.subdirs[i].0 == p[0] {
                    assert(r.take(n + 1) =~= relative.push(t.subdirs[i].0));
                }
                if r.take(n + 1) == relative.push(t.subdirs[i].0) {
                    assert(r.take(n + 1)[n] == r[n]);
                }
            }
        }
        if relative.len() <= r.len() && r.take(n) == relative && p.len() == 0 {
            assert forall|i: int| 0 <= i < t.subdirs.len() implies !(r.len() >= n + 1
                && #[trigger] r.take(n + 1) == relative.push(t.subdirs[i].0)) by {}
        }
        assert forall|i: int|
            0 <= i < t.subdirs.len() && r.len() >= n + 1 && #[trigger] r.take(n + 1)
                == relative.push(t.subdirs[i].0) implies r.take(n) == relative by {
            assert(r.take(n) =~= r.take(n + 1).take(n));
            assert(relative.push(t.subdirs[i].0).take(n) =~= relative);
        }
    }
}

proof fn lemma_walk_all_contains(
    subs: Seq<(Seq<char>, DirTree)>,
    relative: Seq<Seq<char>>,
    r: Seq<Seq<char>>,
)
    ensures
        walk_all(subs, relative).contains(r) <==> exists|i: int|
            0 <= i < subs.len() && r.len() >= relative.len() + 1 && #[trigger] r.take(
                relative.len() as int + 1,
            ) == relative.push(subs[i].0) && outermost_repo(
                subs[i].1,
                r.skip(relative.len() as int + 1),
            ),
    decreases subs, 0int,
{
    broadcast use vstd::seq_lib::group_seq_properties;

    let n = relative.len() as int;
    if subs.len() > 0 {
        let rest = subs.subrange(1, subs.len() as int);
        assert(decreases_to!(subs => subs[0]));
        assert(decreases_to!(subs => rest));
        lemma_walk_from_contains(subs[0].1, relative.push(subs[0].0), r);
        lemma_walk_all_contains(rest, relative, r);
        let head = walk_from(subs[0].1, relative.push(subs[0].0));
        let tail = walk_all(rest, relative);
        assert(walk_all(subs, relative) == head + tail);
        if head.contains(r) {
            assert(r.take(n + 1) == relative.push(subs[0].0));
            assert(r.skip(relative.push(subs[0].0).len() as int) == r.skip(n + 1));
        }
        if tail.contains(r) {
            let j = choose|j: int|
                0 <= j < rest.len() && r.len() >= n + 1 && #[trigger] r.take(n + 1)
                    == relative.push(rest[j].0) && outermost_repo(rest[j].1, r.skip(n + 1));
            assert(rest[j] == subs[j + 1]);
            assert(r.take(n + 1) == relative.push(subs[j + 1].0));
        }
        if exists|i: int|
            0 <= i < subs.len() && r.len() >= n + 1 && #[trigger] r.take(n + 1) == relative.push(
                subs[i].0,
            ) && outermost_repo(subs[i].1, r.skip(n + 1)) {
            let i = choose|i: int|
                0 <= i < subs.len() && r.len() >= n + 1 && #[trigger] r.take(n + 1)
                    == relative.push(subs[i].0) && outermost_repo(subs[i].1, r.skip(n + 1));
            if i == 0 {
                assert(relative.push(subs[0].0).len() == n + 1);
                assert(head.contains(r));
            } else {
                assert(rest[i - 1] == subs[i]);
                assert(r.take(n + 1) == relative.push(rest[i - 1].0));
                assert(tail.contains(r));
            }
        }
    }
}

/// The walk lists exactly the outermost repos: a relative path is listed
/// exactly when the directory there exists, holds `.git`, and no directory
/// above it (up to `root-dir`) holds `.git` - a repo's tree is never
/// searched for clones nested inside it.
pub proof fn law_walk_lists_outermost_repos(root: DirTree, r: Seq<Seq<char>>)
    ensures
        walk_from(root, Seq::empty()).contains(r) <==> outermost_repo(root, r),
{
    lemma_walk_from_contains(root, Seq::empty(), r);
    assert(r.take(0) =~= Seq::<Seq<char>>::empty());
    assert(r.skip(0) =~= r);
}

proof fn lemma_walk_from_no_duplicates(t: DirTree, relative: Seq<Seq<char>>)
    requires
        names_distinct(t),
    ensures
        walk_from(t, relative).no_duplicates(),
    decreases t, 1int,
{
    if !t.has_git_dir {
        lemma_walk_all_no_duplicates(t.subdirs, relative);
    }
}

proof fn lemma_walk_all_no_duplicates(subs: Seq<(Seq<char>, DirTree)>, relative: Seq<Seq<char>>)
    requires
        names_of(subs).no_duplicates(),
        forall|i: int| 0 <= i < subs.len() ==> names_distinct(#[trigger] subs[i].1),
    ensures
        walk_all(subs, relative).no_duplicates(),
    decreases subs, 0int,
{
    if subs.len() > 0 {
        let n = relative.len() as int;
        let rest = subs.subrange(1, subs.len() as int);
        assert(decreases_to!(subs => subs[0]));
        assert(decreases_to!(subs => rest));
        assert forall|i: int, j: int|
            0 <= i < rest.len() && 0 <= j < rest.len() && i != j implies names_of(rest)[i]
            != names_of(rest)[j] by {
            assert(names_of(rest)[i] == names_of(subs)[i + 1]);
            assert(names_of(rest)[j] == names_of(subs)[j + 1]);
        }
        assert forall|i: int| 0 <= i < rest.len() implies names_distinct(#[trigger] rest[i].1) by {
            assert(rest[i] == subs[i + 1]);
        }
        lemma_walk_from_no_duplicates(subs[0].1, relative.push(subs[0].0));
        lemma_walk_all_no_duplicates(rest, relative);
        let head = walk_from(subs[0].1, relative.push(subs[0].0));
        let tail = walk_all(rest, relative);
        assert forall|i: int, j: int| 0 <= i < head.len() && 0 <= j < tail.len() implies head[i]
            != tail[j] by {
            assert(head.contains(head[i]));
            assert(tail.contains(tail[j]));
            lemma_walk_from_contains(subs[0].1, relative.push(subs[0].0), head[i]);
            lemma_walk_all_contains(rest, relative, tail[j]);
            let k = choose|k: int|
                0 <= k < rest.len() && tail[j].len() >= n + 1 && #[trigger] tail[j].take(n + 1)
                    == relative.push(rest[k].0) && outermost_repo(rest[k].1, tail[j].skip(n + 1));
            if head[i] == tail[j] {
                assert(relative.push(subs[0].0)[n] == relative.push(rest[k].0)[n]);
                assert(names_of(subs)[0] == names_of(subs)[k + 1]);
            }
        }
        vstd::seq_lib::lemma_no_dup_in_concat(head, tail);
    }
}

/// The listing shows each outermost repo exactly once: in a tree where no
/// directory has two subdirectories of the same name, any arrangement of
/// what the walk found (such as [`find_repos`]'s sorted one) holds no path
/// twice, and holds a path exactly when the directory there is a repo not
/// nested inside another.
pub proof fn law_listing_shows_each_outermost_repo_once(
    root: DirTree,
    listed: Seq<Seq<Seq<char>>>,
)
    requires
        names_distinct(root),
        listed.to_multiset() == walk_from(root, Seq::empty()).to_multiset(),
    ensures
        listed.no_duplicates(),
        forall|r: Seq<Seq<char>>| #[trigger] listed.contains(r) <==> outermost_repo(root, r),
{
    broadcast use vstd::seq_lib::group_to_multiset_ensures;

    let found = walk_from(root, Seq::empty());
    lemma_walk_from_no_duplicates(root, Seq::empty());
    found.lemma_multiset_has_no_duplicates();
    listed.lemma_multiset_has_no_duplicates_conv();
    assert forall|r: Seq<Seq<char>>| #[trigger] listed.contains(r) <==> outermost_repo(root, r) by {
        law_walk_lists_outermost_repos(root, r);
        assert(listed.contains(r) <==> listed.to_multiset().count(r) > 0);
        assert(found.contains(r) <==> found.to_multiset().count(r) > 0);
    }
}

/// Names are ordered lexicographically by character: `a` comes before `b`
/// exactly when `a` is a proper prefix of `b`, or at the first position
/// where they differ `a`'s character is the smaller - whatever their
/// lengths.
pub proof fn law_chars_lt_is_lexicographic(a: Seq<char>, b: Seq<char>)
    ensures
        chars_lt(a, b) <==> ((a.len() < b.len() && a == b.take(a.len() as int)) || exists|i: int|
            0 <= i < a.len() && i < b.len() && a.take(i) == b.take(i) && (a[i] as u32) < (
            b[i] as u32)),
    decreases a.len(),
{
    if a.len() == 0 {
        if b.len() > 0 {
            assert(a =~= b.take(0));
        }
    } else if b.len() == 0 {
    } else if a[0] != b[0] {
        if (a[0] as u32) < (b[0] as u32) {
            assert(a.take(0) =~= b.take(0));
        }
        if a.len() < b.len() && a == b.take(a.len() as int) {
            assert(a[0] == b.take(a.len() as int)[0]);
        }
        if exists|i: int|
            0 <= i < a.len() && i < b.len() && a.take(i) == b.take(i) && (a[i] as u32) < (
            b[i] as u32) {
            let i = choose|i: int|
                0 <= i < a.len() && i < b.len() && a.take(i) == b.take(i) && (a[i] as u32) < (
                b[i] as u32);
            if i > 0 {
                assert(a.take(i)[0] == b.take(i)[0]);
            }
        }
    } else {
        let a1 = a.drop_first();
        let b1 = b.drop_first();
        law_chars_lt_is_lexicographic(a1, b1);
        if a.len() < b.len() {
            if a == b.take(a.len() as int) {
                assert(a1 =~= b1.take(a1.len() as int));
            }
            if a1 == b1.take(a1.len() as int) {
                assert forall|j: int| 0 <= j < a.len() implies #[trigger] a[j] == b.take(a.len() as int)[j] by {
                    if j > 0 {
                        assert(a[j] == a1[j - 1]);
                        assert(b1.take(a1.len() as int)[j - 1] == b[j]);
                    }
                }
                assert(a =~= b.take(a.len() as int));
            }
        }
        if exists|i: int|
            0 <= i < a.len() && i < b.len() && a.take(i) == b.take(i) && (a[i] as u32) < (
            b[i] as u32) {
            let i = choose|i: int|
                0 <= i < a.len() && i < b.len() && a.take(i) == b.take(i) && (a[i] as u32) < (
                b[i] as u32);
            assert(i > 0);
            assert(a1.take(i - 1) =~= a.take(i).drop_first());
            assert(b1.take(i - 1) =~= b.take(i).drop_first());
            assert(a1[i - 1] == a[i] && b1[i - 1] == b[i]);
        }
        if exists|i: int|
            0 <= i < a1.len() && i < b1.len() && a1.take(i) == b1.take(i) && (a1[i] as u32) < (
            b1[i] as u32) {
            let i = choose|i: int|
                0 <= i < a1.len() && i < b1.len() && a1.take(i) == b1.take(i) && (a1[i] as u32) < (
                b1[i] as u32);
            assert forall|j: int| 0 <= j < i + 1 implies #[trigger] a.take(i + 1)[j] == b.take(i + 1)[j] by {
                if j > 0 {
                    assert(a.take(i + 1)[j] == a1.take(i)[j - 1]);
                    assert(b.take(i + 1)[j] == b1.take(i)[j - 1]);
                }
            }
            assert(a.take(i + 1) =~= b.take(i + 1));
            assert(a[i + 1] == a1[i] && b[i + 1] == b1[i]);
        }
    }
}

/// Paths are ordered lexicographically by component: `a` comes before `b`
/// exactly when `a` is a proper prefix of `b`, or at the first component
/// where they differ `a`'s name comes first - whatever their lengths.
pub proof fn law_path_lt_is_lexicographic(a: Seq<Seq<char>>, b: Seq<Seq<char>>)
    ensures
        path_lt(a, b) <==> ((a.len() < b.len() && a == b.take(a.len() as int)) || exists|i: int|
            0 <= i < a.len() && i < b.len() && a.take(i) == b.take(i) && a[i] != b[i] && chars_lt(
            a[i],
            b[i],
        )),
    decreases a.len(),
{
    if a.len() == 0 {
        if b.len() > 0 {
            assert(a =~= b.take(0));
        }
    } else if b.len() == 0 {
    } else if a[0] != b[0] {
        if chars_lt(a[0], b[0]) {
            assert(a.take(0) =~= b.take(0));
        }
        if a.len() < b.len() && a == b.take(a.len() as int) {
            assert(a[0] == b.take(a.len() as int)[0]);
        }
        if exists|i: int|
            0 <= i < a.len() && i < b.len() && a.take(i) == b.take(i) && a[i] != b[i] && chars_lt(
            a[i],
            b[i],
        ) {
            let i = choose|i: int|
                0 <= i < a.len() && i < b.len() && a.take(i) == b.take(i) && a[i] != b[i]
                    && chars_lt(a[i], b[i]);
            if i > 0 {
                assert(a.take(i)[0] == b.take(i)[0]);
            }
        }
    } else {
        let a1 = a.drop_first();
        let b1 = b.drop_first();
        law_path_lt_is_lexicographic(a1, b1);
        if a.len() < b.len() {
            if a == b.take(a.len() as int) {
                assert(a1 =~= b1.take(a1.len() as int));
            }
            if a1 == b1.take(a1.len() as int) {
                assert forall|j: int| 0 <= j < a.len() implies #[trigger] a[j] == b.take(a.len() as int)[j] by {
                    if j > 0 {
                        assert(a[j] == a1[j - 1]);
                        assert(b1.take(a1.len() as int)[j - 1] == b[j]);
                    }
                }
                assert(a =~= b.take(a.len() as int));
            }
        }
        if exists|i: int|
            0 <= i < a.len() && i < b.len() && a.take(i) == b.take(i) && a[i] != b[i] && chars_lt(
            a[i],
            b[i],
        ) {
            let i = choose|i: int|
                0 <= i < a.len() && i < b.len() && a.take(i) == b.take(i) && a[i] != b[i]
                    && chars_lt(a[i], b[i]);
            assert(i > 0);
            assert(a1.take(i - 1) =~= a.take(i).drop_first());
            assert(b1.take(i - 1) =~= b.take(i).drop_first());
            assert(a1[i - 1] == a[i] && b1[i - 1] == b[i]);
        }
        if exists|i: int|
            0 <= i < a1.len() && i < b1.len() && a1.take(i) == b1.take(i) && a1[i] != b1[i]
                && chars_lt(a1[i], b1[i]) {
            let i = choose|i: int|
                0 <= i < a1.len() && i < b1.len() && a1.take(i) == b1.take(i) && a1[i] != b1[i]
                    && chars_lt(a1[i], b1[i]);
            assert forall|j: int| 0 <= j < i + 1 implies #[trigger] a.take(i + 1)[j] == b.take(i + 1)[j] by {
                if j > 0 {
                    assert(a.take(i + 1)[j] == a1.take(i)[j - 1]);
                    assert(b.take(i + 1)[j] == b1.take(i)[j - 1]);
                }
            }
            assert(a.take(i + 1) =~= b.take(i + 1));
            assert(a[i + 1] == a1[i] && b[i + 1] == b1[i]);
        }
    }
}

} // verus!
