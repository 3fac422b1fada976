//! Builder turning a parsed URL into the on-disk path it clones to,
//! mirroring the URL's own host/path structure under `root-dir` verbatim.
//!
//! Paths are strings with `/` as separator; joining follows `PathBuf::push`
//! on Unix: an absolute part replaces the path so far, and a separator is
//! added only where the path so far is non-empty and does not already end
//! with one.
use vstd::prelude::*;
use vstd::string::*;
use crate::text::{chars_of, eq_str, join_with, split_nonempty, split_segments, string_of};
use crate::url_parser::{free_of, normalized, well_formed, ParsedUrl, UrlParts};

verus! {

/// `base` with `part` pushed onto it.
pub open spec fn push_path(base: Seq<char>, part: Seq<char>) -> Seq<char> {
    if part.len() > 0 && part[0] == '/' {
        part
    } else if base.len() == 0 || base.last() == '/' {
        base + part
    } else {
        base + seq!['/'] + part
    }
}

/// `base` with every part pushed onto it, in order.
pub open spec fn push_all(base: Seq<char>, parts: Seq<Seq<char>>) -> Seq<char>
    decreases parts.len(),
{
    if parts.len() == 0 {
        base
    } else {
        push_all(push_path(base, parts[0]), parts.drop_first())
    }
}

/// The path segments a URL's clone lands under: host, path segments, name.
pub open spec fn url_components(p: UrlParts) -> Seq<Seq<char>> {
    seq![p.host] + p.path_segments + seq![p.repo_name]
}

/// Where a URL with parts `p` clones to under `root`.
pub open spec fn destination_of(root: Seq<char>, p: UrlParts) -> Seq<char> {
    push_all(root, url_components(p))
}

/// `base` with `part` pushed onto it (`Path::join`).
pub fn join_path(base: &str, part: &str) -> (r: String)
    ensures
        r@ == push_path(base@, part@),
{
    let b = crate::text::chars_of(base);
    let p = crate::text::chars_of(part);
    if p.len() > 0 && p[0] == '/' {
        return part.to_owned();
    }
    let mut r = base.to_owned();
    if !(b.len() == 0 || b[b.len() - 1] == '/') {
        r.append("/");
        proof {
            reveal_strlit("/");
        }
    }
    r.append(part);
    r
}

/// `root_dir/host/path.../repo` for `parsed`.
pub fn destination_path(root_dir: &str, parsed: &ParsedUrl) -> (r: String)
    ensures
        r@ == destination_of(root_dir@, parsed@),
{
    let ghost parts = url_components(parsed@);
    let mut path = join_path(root_dir, parsed.host.as_str());
    let n = parsed.path_segments.len();
    assert(parts.drop_first().take(n as int) =~= parsed.path_segments.deep_view());
    assert(push_all(root_dir@, parts) == push_all(push_path(root_dir@, parsed.host@), parts.skip(1)))
        by {
        assert(parts.drop_first() =~= parts.skip(1));
    }
    for i in 0..n
        invariant
            n == parsed.path_segments@.len(),
            parts == url_components(parsed@),
            push_all(root_dir@, parts) == push_all(path@, parts.skip(i + 1)),
    {
        assert(parts.skip(i + 1)[0] == parsed.path_segments@[i as int]@);
        assert(parts.skip(i + 1).drop_first() =~= parts.skip(i + 2));
        path = join_path(path.as_str(), parsed.path_segments[i].as_str());
    }
    assert(parts.skip(n + 1) =~= seq![parsed.repo_name@]);
    let r = join_path(path.as_str(), parsed.repo_name.as_str());
    assert(seq![parsed.repo_name@].drop_first() =~= Seq::<Seq<char>>::empty());
    assert(push_all(r@, Seq::<Seq<char>>::empty()) == r@);
    assert(push_all(path@, seq![parsed.repo_name@]) == r@);
    r
}

} // verus!

verus! {

proof fn lemma_push_all_plain(base: Seq<char>, parts: Seq<Seq<char>>)
    requires
        base.len() > 0,
        base.last() != '/',
        parts.len() > 0,
        forall|k: int|
            0 <= k < parts.len() ==> #[trigger] parts[k].len() > 0 && free_of(parts[k], '/'),
    ensures
        push_all(base, parts) == base + seq!['/'] + join_with(parts, '/'),
    decreases parts.len(),
{
    let p0 = parts[0];
    assert(p0.len() > 0 && free_of(p0, '/'));
    assert(p0[0] != '/');
    let next = base + seq!['/'] + p0;
    assert(push_path(base, p0) == next);
    if parts.len() == 1 {
        assert(parts.drop_first() =~= Seq::<Seq<char>>::empty());
        assert(push_all(next, Seq::<Seq<char>>::empty()) == next);
    } else {
        let rest = parts.drop_first();
        assert forall|k: int| 0 <= k < rest.len() implies #[trigger] rest[k].len() > 0 && free_of(
            rest[k],
            '/',
        ) by {
            assert(rest[k] == parts[k + 1]);
        }
        assert(next.last() == p0.last());
        assert(p0.last() == p0[p0.len() - 1]);
        lemma_push_all_plain(next, rest);
        assert(next + seq!['/'] + join_with(rest, '/') =~= base + seq!['/'] + join_with(parts, '/'));
    }
}

/// The destination mirrors the URL: under a root that is non-empty and does
/// not end in `/`, well-formed parts whose host holds no `/` land at
/// `root/host/segments.../name` - the root, a `/`, and the URL's normalized
/// `host/owner/repo` path.
pub proof fn law_destination_mirrors_url(root: Seq<char>, p: UrlParts)
    requires
        root.len() > 0,
        root.last() != '/',
        well_formed(p),
        free_of(p.host, '/'),
    ensures
        destination_of(root, p) == root + seq!['/'] + normalized(p),
{
    let parts = url_components(p);
    assert forall|k: int| 0 <= k < parts.len() implies #[trigger] parts[k].len() > 0 && free_of(
        parts[k],
        '/',
    ) by {
        if k == 0 {
            assert(parts[k] == p.host);
        } else if k <= p.path_segments.len() {
            assert(parts[k] == p.path_segments[k - 1]);
        } else {
            assert(parts[k] == p.repo_name);
        }
    }
    lemma_push_all_plain(root, parts);
}

/// `segments` without the `.` ones, in order.
pub open spec fn drop_dots(segments: Seq<Seq<char>>) -> Seq<Seq<char>>
    decreases segments.len(),
{
    if segments.len() == 0 {
        Seq::empty()
    } else {
        let prev = drop_dots(segments.drop_last());
        if segments.last() == seq!['.'] {
            prev
        } else {
            prev.push(segments.last())
        }
    }
}

/// What `Path` compares a path by on Unix (its components): whether it is
/// absolute, whether it starts with a `.` component (kept only there), and
/// its remaining components - the non-empty pieces between `/`s, `.` ones
/// dropped.
pub open spec fn path_key(s: Seq<char>) -> (bool, bool, Seq<Seq<char>>) {
    let absolute = s.len() > 0 && s[0] == '/';
    let cur_dir = !absolute && s.len() > 0 && s[0] == '.' && (s.len() == 1 || s[1] == '/');
    (absolute, cur_dir, drop_dots(split_nonempty(s, '/')))
}

/// `segments` without the `.` ones.
fn drop_dot_segments(segments: &Vec<String>) -> (r: Vec<String>)
    ensures
        r.deep_view() == drop_dots(segments.deep_view()),
{
    let ghost ss = segments.deep_view();
    let mut r: Vec<String> = Vec::new();
    let n = segments.len();
    assert(ss.take(0) =~= Seq::<Seq<char>>::empty());
    for i in 0..n
        invariant
            n == segments@.len(),
            ss == segments.deep_view(),
            r.deep_view() == drop_dots(ss.take(i as int)),
    {
        let ghost before = r.deep_view();
        assert(ss.take(i + 1).drop_last() =~= ss.take(i as int));
        assert(ss.take(i + 1).last() == ss[i as int]);
        assert(ss[i as int] == segments@[i as int]@);
        proof {
            reveal_strlit(".");
            assert("."@ =~= seq!['.']);
        }
        if !eq_str(segments[i].as_str(), ".") {
            r.push(segments[i].clone());
            assert(r.deep_view() =~= before.push(segments@[i as int]@));
        }
    }
    assert(ss.take(n as int) =~= ss);
    r
}

/// Whether `a` and `b` name the same path as `Path`'s `==` decides it:
/// equal components, so `.` components and repeated or trailing `/`s make
/// no difference.
pub fn same_path(a: &str, b: &str) -> (r: bool)
    ensures
        r == (path_key(a@) == path_key(b@)),
{
    let x = chars_of(a);
    let y = chars_of(b);
    let x_abs = x.len() > 0 && x[0] == '/';
    let y_abs = y.len() > 0 && y[0] == '/';
    let x_cur = !x_abs && x.len() > 0 && x[0] == '.' && (x.len() == 1 || x[1] == '/');
    let y_cur = !y_abs && y.len() > 0 && y[0] == '.' && (y.len() == 1 || y[1] == '/');
    let xs = drop_dot_segments(&split_segments(&x, '/'));
    let ys = drop_dot_segments(&split_segments(&y, '/'));
    assert(path_key(a@) == (x_abs, x_cur, xs.deep_view()));
    assert(path_key(b@) == (y_abs, y_cur, ys.deep_view()));
    if x_abs != y_abs || x_cur != y_cur || xs.len() != ys.len() {
        assert(path_key(a@) != path_key(b@)) by {
            if x_abs == y_abs && x_cur == y_cur {
                assert(xs.deep_view().len() != ys.deep_view().len());
            }
        }
        return false;
    }
    let n = xs.len();
    for i in 0..n
        invariant
            n == xs@.len(),
            n == ys@.len(),
            path_key(a@) == (x_abs, x_cur, xs.deep_view()),
            path_key(b@) == (y_abs, y_cur, ys.deep_view()),
            forall|j: int| 0 <= j < i ==> xs@[j]@ == ys@[j]@,
    {
        if !eq_str(xs[i].as_str(), ys[i].as_str()) {
            assert(xs.deep_view()[i as int] != ys.deep_view()[i as int]);
            assert(xs.deep_view() != ys.deep_view());
            return false;
        }
    }
    assert(xs.deep_view() =~= ys.deep_view());
    true
}

} // verus!
