//! Parser turning a clone URL into its host, path segments and repository
//! name. Only SCP-style SSH (`git@host:path[.git]`) and
//! `https://host/path[.git]` are accepted.
use vstd::prelude::*;
use vstd::string::*;
use crate::text::{
    chars_of, ends_with, first_index_of, index_of, join_strings, join_with, lemma_first_index_at,
    lemma_first_index_le, lemma_join_push, lemma_split_join, lemma_split_pieces,
    slice_chars, split_nonempty, split_once, split_segments, starts_with, string_of, string_of_range,
};

verus! {

/// A clone URL taken apart: the host, the path segments between host and
/// repository, and the repository name without any `.git` suffix.
#[derive(Debug, Clone, PartialEq, Eq)]
pub struct ParsedUrl {
    pub host: String,
    pub path_segments: Vec<String>,
    pub repo_name: String,
}

/// The parts of a URL, as sequences of characters.
pub struct UrlParts {
    pub host: Seq<char>,
    pub path_segments: Seq<Seq<char>>,
    pub repo_name: Seq<char>,
}

impl View for ParsedUrl {
    type V = UrlParts;

    open spec fn view(&self) -> UrlParts {
        UrlParts {
            host: self.host@,
            path_segments: self.path_segments.deep_view(),
            repo_name: self.repo_name@,
        }
    }
}

/// A URL that is in neither accepted form; it keeps the rejected URL.
#[derive(Debug, Clone, PartialEq, Eq)]
pub struct ParseError {
    url: String,
}

impl View for ParseError {
    type V = Seq<char>;

    /// The rejected URL.
    closed spec fn view(&self) -> Seq<char> {
        self.url@
    }
}

/// `https://`
pub open spec fn https_prefix() -> Seq<char> {
    seq!['h', 't', 't', 'p', 's', ':', '/', '/']
}

/// `git@`
pub open spec fn scp_prefix() -> Seq<char> {
    seq!['g', 'i', 't', '@']
}

/// `.git`
pub open spec fn git_suffix() -> Seq<char> {
    seq!['.', 'g', 'i', 't']
}

/// The last path segment without one trailing `.git`.
pub open spec fn strip_git(last: Seq<char>) -> Seq<char> {
    if git_suffix().is_suffix_of(last) {
        last.take(last.len() - 4)
    } else {
        last
    }
}

/// The parts of a URL whose host and path have already been split apart:
/// `None` when the host is empty, the path has no non-empty segment, or the
/// repository name is empty once `.git` is stripped.
pub open spec fn build_parts(host: Seq<char>, path: Seq<char>) -> Option<UrlParts> {
    let segments = split_nonempty(path, '/');
    if host.len() == 0 || segments.len() == 0 {
        None
    } else {
        let name = strip_git(segments.last());
        if name.len() == 0 {
            None
        } else {
            Some(UrlParts { host, path_segments: segments.drop_last(), repo_name: name })
        }
    }
}

/// What `parse` makes of `url`: after `https://` the host ends at the first
/// `/`; after `git@` it ends at the first `:`; any other form is rejected.
pub open spec fn parse_url(url: Seq<char>) -> Option<UrlParts> {
    if https_prefix().is_prefix_of(url) {
        match split_once(url.skip(8), '/') {
            Some((host, path)) => build_parts(host, path),
            None => None,
        }
    } else if scp_prefix().is_prefix_of(url) {
        match split_once(url.skip(4), ':') {
            Some((host, path)) => build_parts(host, path),
            None => None,
        }
    } else {
        None
    }
}

/// The `host/owner/repo` form of parsed parts: host, path segments and
/// repository name joined by `/`.
pub open spec fn normalized(p: UrlParts) -> Seq<char> {
    join_with(seq![p.host] + p.path_segments + seq![p.repo_name], '/')
}

/// Accepts only SCP-style SSH (`git@host:path[.git]`) and
/// `https://host/path[.git]`. Everything else - `ssh://`, `git://`,
/// `http://`, bare `owner/repo`, aliased shorthand like `alias:owner/repo` -
/// is rejected with a `ParseError` holding the URL.
pub fn parse(url: &str) -> (r: Result<ParsedUrl, ParseError>)
    ensures
        match r {
            Ok(p) => parse_url(url@) == Some(p@),
            Err(e) => parse_url(url@) is None && e@ == url@,
        },
{
    let v = chars_of(url);
    let https: Vec<char> = vec!['h', 't', 't', 'p', 's', ':', '/', '/'];
    let scp: Vec<char> = vec!['g', 'i', 't', '@'];
    assert(https@ == https_prefix());
    assert(scp@ == scp_prefix());
    if starts_with(&v, &https) {
        let rest = slice_chars(&v, 8, v.len());
        let i = index_of(&rest, '/');
        proof {
            lemma_first_index_le(rest@, '/');
        }
        if i == rest.len() {
            return Err(new_error(url));
        }
        let host = slice_chars(&rest, 0, i);
        let path = slice_chars(&rest, i + 1, rest.len());
        assert(host@ == rest@.take(i as int));
        assert(path@ == rest@.skip(i + 1));
        return build(url, &host, &path);
    }
    if starts_with(&v, &scp) {
        let rest = slice_chars(&v, 4, v.len());
        let i = index_of(&rest, ':');
        proof {
            lemma_first_index_le(rest@, ':');
        }
        if i == rest.len() {
            return Err(new_error(url));
        }
        let host = slice_chars(&rest, 0, i);
        let path = slice_chars(&rest, i + 1, rest.len());
        assert(host@ == rest@.take(i as int));
        assert(path@ == rest@.skip(i + 1));
        return build(url, &host, &path);
    }
    Err(new_error(url))
}

fn build(url: &str, host: &Vec<char>, path: &Vec<char>) -> (r: Result<ParsedUrl, ParseError>)
    ensures
        match r {
            Ok(p) => build_parts(host@, path@) == Some(p@),
            Err(e) => build_parts(host@, path@) is None && e@ == url@,
        },
{
    if host.len() == 0 {
        return Err(new_error(url));
    }
    let mut segments = split_segments(path, '/');
    if segments.len() == 0 {
        return Err(new_error(url));
    }
    let ghost all = segments.deep_view();
    let last_segment = segments.pop().unwrap();
    assert(segments.deep_view() =~= all.drop_last());
    assert(last_segment@ == all.last());
    let last = chars_of(last_segment.as_str());
    let git: Vec<char> = vec!['.', 'g', 'i', 't'];
    assert(git@ == git_suffix());
    let name_end = if ends_with(&last, &git) {
        last.len() - 4
    } else {
        last.len()
    };
    assert(strip_git(last@) =~= last@.subrange(0, name_end as int));
    if name_end == 0 {
        return Err(new_error(url));
    }
    Ok(
        ParsedUrl {
            host: string_of(host),
            path_segments: segments,
            repo_name: string_of_range(&last, 0, name_end),
        },
    )
}

fn new_error(url: &str) -> (e: ParseError)
    ensures
        e@ == url@,
{
    ParseError { url: url.to_owned() }
}

impl ParsedUrl {
    /// The normalized `host/owner/repo` string this URL's clone is matched
    /// against by category patterns.
    pub fn normalized_path(&self) -> (s: String)
        ensures
            s@ == normalized(self@),
    {
        let mut parts: Vec<String> = Vec::new();
        parts.push(self.host.clone());
        let n = self.path_segments.len();
        for i in 0..n
            invariant
                n == self.path_segments@.len(),
                parts.deep_view() == seq![self.host@] + self.path_segments.deep_view().take(
                    i as int,
                ),
        {
            let ghost before = parts.deep_view();
            parts.push(self.path_segments[i].clone());
            assert(parts.deep_view() =~= before.push(self.path_segments@[i as int]@));
            assert(self.path_segments.deep_view().take(i + 1) =~= self.path_segments.deep_view().take(
                i as int,
            ).push(self.path_segments@[i as int]@));
        }
        let ghost before = parts.deep_view();
        parts.push(self.repo_name.clone());
        assert(parts.deep_view() =~= before.push(self.repo_name@));
        assert(self.path_segments.deep_view().take(n as int) =~= self.path_segments.deep_view());
        assert(parts.deep_view() =~= seq![self.host@] + self.path_segments.deep_view() + seq![
            self.repo_name@,
        ]);
        join_strings(&parts, '/')
    }
}

impl ParseError {
    /// This rejection as a library error.
    pub fn to_error(&self) -> (e: crate::error::GigError)
        ensures
            e matches crate::error::GigError::UnsupportedUrl { url } && url@ == self@,
    {
        crate::error::GigError::UnsupportedUrl { url: self.url.clone() }
    }

    /// The rejected URL.
    pub fn url(&self) -> (s: &str)
        ensures
            s@ == self@,
    {
        self.url.as_str()
    }

    /// The error's text: names the rejected URL and the two accepted forms.
    pub fn message(&self) -> (s: String)
        ensures
            s@ == "unsupported URL form: `"@ + self@
                + "` (expected `git@host:path[.git]` or `https://host/path[.git]`)"@,
    {
        let mut s = "unsupported URL form: `".to_owned();
        s.append(self.url.as_str());
        s.append("` (expected `git@host:path[.git]` or `https://host/path[.git]`)");
        s
    }
}

} // verus!

verus! {

/// A sequence of characters free of `c`, stated index by index.
pub open spec fn free_of(s: Seq<char>, c: char) -> bool {
    forall|j: int| 0 <= j < s.len() ==> s[j] != c
}

/// The parts `parse` accepts: a non-empty host; non-empty path segments
/// free of `/`; a non-empty repository name free of `/`.
pub open spec fn well_formed(p: UrlParts) -> bool {
    &&& p.host.len() > 0
    &&& p.repo_name.len() > 0
    &&& free_of(p.repo_name, '/')
    &&& forall|k: int|
        0 <= k < p.path_segments.len() ==> #[trigger] p.path_segments[k].len() > 0 && free_of(
            p.path_segments[k],
            '/',
        )
}

proof fn lemma_contains_free(s: Seq<char>, c: char)
    ensures
        !s.contains(c) <==> free_of(s, c),
{
    if !s.contains(c) {
        assert forall|j: int| 0 <= j < s.len() implies s[j] != c by {
            if s[j] == c {
                assert(s.contains(c));
            }
        }
    }
}

/// Whatever `parse` accepts is well formed: host and name are non-empty,
/// and no segment or name is empty or holds a `/`.
pub proof fn law_parsed_parts_well_formed(url: Seq<char>)
    requires
        parse_url(url) is Some,
    ensures
        well_formed(parse_url(url)->0),
{
    let rest = if https_prefix().is_prefix_of(url) {
        url.skip(8)
    } else {
        url.skip(4)
    };
    let c = if https_prefix().is_prefix_of(url) {
        '/'
    } else {
        ':'
    };
    let (host, path) = split_once(rest, c)->0;
    let segments = split_nonempty(path, '/');
    lemma_split_pieces(path, '/');
    let last = segments.last();
    assert(last == segments[segments.len() - 1]);
    lemma_contains_free(last, '/');
    let p = parse_url(url)->0;
    assert(p.path_segments == segments.drop_last());
    assert forall|k: int| 0 <= k < p.path_segments.len() implies #[trigger] p.path_segments[k].len()
        > 0 && free_of(p.path_segments[k], '/') by {
        assert(p.path_segments[k] == segments[k]);
        lemma_contains_free(segments[k], '/');
    }
}

proof fn lemma_join_suffix(parts: Seq<Seq<char>>, x: Seq<char>, tail: Seq<char>, sep: char)
    ensures
        join_with(parts.push(x), sep) + tail == join_with(parts.push(x + tail), sep),
{
    lemma_join_push(parts, x, sep);
    lemma_join_push(parts, x + tail, sep);
    if parts.len() > 0 {
        assert(join_with(parts, sep) + seq![sep] + x + tail =~= join_with(parts, sep) + seq![sep] + (
        x + tail));
    }
}

/// Parsing the path after the host: the segments and name come back.
proof fn lemma_build_round_trip(
    host: Seq<char>,
    segments: Seq<Seq<char>>,
    name: Seq<char>,
    with_git: bool,
)
    requires
        well_formed(UrlParts { host, path_segments: segments, repo_name: name }),
        with_git || !git_suffix().is_suffix_of(name),
    ensures
        build_parts(
            host,
            join_with(segments.push(name), '/') + (if with_git {
                git_suffix()
            } else {
                Seq::empty()
            }),
        ) == Some(UrlParts { host, path_segments: segments, repo_name: name }),
{
    let tail = if with_git {
        git_suffix()
    } else {
        Seq::<char>::empty()
    };
    let last = name + tail;
    lemma_join_suffix(segments, name, tail, '/');
    let parts = segments.push(last);
    assert(free_of(last, '/') && last.len() > 0) by {
        assert forall|j: int| 0 <= j < last.len() implies last[j] != '/' by {
            if j >= name.len() {
                assert(last[j] == git_suffix()[j - name.len()]);
            } else {
                assert(last[j] == name[j]);
            }
        }
    }
    assert forall|k: int| 0 <= k < parts.len() implies #[trigger] parts[k].len() > 0 && !parts[k].contains(
        '/',
    ) by {
        if k < segments.len() {
            assert(parts[k] == segments[k]);
            let wp = UrlParts { host, path_segments: segments, repo_name: name };
            assert(wp.path_segments[k].len() > 0 && free_of(wp.path_segments[k], '/'));
            lemma_contains_free(segments[k], '/');
        } else {
            assert(parts[k] == last);
            lemma_contains_free(last, '/');
        }
    }
    lemma_split_join(parts, '/');
    assert(parts.last() == last);
    if with_git {
        assert(git_suffix().is_suffix_of(last)) by {
            assert(last.subrange(last.len() - 4, last.len() as int) =~= git_suffix());
        }
        assert(last.take(last.len() - 4) =~= name);
    } else {
        assert(last =~= name);
    }
    assert(parts.drop_last() =~= segments);
}

/// An `https://` URL built from a host, path segments and a name (with or
/// without a trailing `.git`) parses back into exactly those parts.
pub proof fn law_https_round_trip(
    host: Seq<char>,
    segments: Seq<Seq<char>>,
    name: Seq<char>,
    with_git: bool,
)
    requires
        well_formed(UrlParts { host, path_segments: segments, repo_name: name }),
        free_of(host, '/'),
        with_git || !git_suffix().is_suffix_of(name),
    ensures
        parse_url(
            https_prefix() + host + seq!['/'] + join_with(segments.push(name), '/') + (if with_git {
                git_suffix()
            } else {
                Seq::empty()
            }),
        ) == Some(UrlParts { host, path_segments: segments, repo_name: name }),
{
    let tail = if with_git {
        git_suffix()
    } else {
        Seq::<char>::empty()
    };
    let path = join_with(segments.push(name), '/') + tail;
    let url = https_prefix() + host + seq!['/'] + path;
    assert(https_prefix() + host + seq!['/'] + join_with(segments.push(name), '/') + tail =~= url);
    assert(url =~= https_prefix() + (host + (seq!['/'] + path)));
    assert(https_prefix().is_prefix_of(url)) by {
        assert(url.subrange(0, 8) =~= https_prefix());
    }
    assert(url.skip(8) =~= host + (seq!['/'] + path));
    lemma_first_index_at(host, seq!['/'] + path, '/');
    assert((host + (seq!['/'] + path)).take(host.len() as int) =~= host);
    assert((host + (seq!['/'] + path)).skip(host.len() as int + 1) =~= path);
    assert(split_once(url.skip(8), '/') == Some((host, path)));
    lemma_build_round_trip(host, segments, name, with_git);
}

/// A `git@host:path` URL built from a host free of `:`, path segments and a
/// name (with or without a trailing `.git`) parses back into exactly those
/// parts.
pub proof fn law_scp_round_trip(
    host: Seq<char>,
    segments: Seq<Seq<char>>,
    name: Seq<char>,
    with_git: bool,
)
    requires
        well_formed(UrlParts { host, path_segments: segments, repo_name: name }),
        free_of(host, ':'),
        with_git || !git_suffix().is_suffix_of(name),
    ensures
        parse_url(
            scp_prefix() + host + seq![':'] + join_with(segments.push(name), '/') + (if with_git {
                git_suffix()
            } else {
                Seq::empty()
            }),
        ) == Some(UrlParts { host, path_segments: segments, repo_name: name }),
{
    let tail = if with_git {
        git_suffix()
    } else {
        Seq::<char>::empty()
    };
    let path = join_with(segments.push(name), '/') + tail;
    let url = scp_prefix() + host + seq![':'] + path;
    assert(scp_prefix() + host + seq![':'] + join_with(segments.push(name), '/') + tail =~= url);
    assert(url =~= scp_prefix() + (host + (seq![':'] + path)));
    assert(!https_prefix().is_prefix_of(url)) by {
        assert(url[0] == 'g');
        if https_prefix().is_prefix_of(url) {
            assert(url.subrange(0, 8)[0] == 'h');
        }
    }
    assert(scp_prefix().is_prefix_of(url)) by {
        assert(url.subrange(0, 4) =~= scp_prefix());
    }
    assert(url.skip(4) =~= host + (seq![':'] + path));
    lemma_first_index_at(host, seq![':'] + path, ':');
    assert((host + (seq![':'] + path)).take(host.len() as int) =~= host);
    assert((host + (seq![':'] + path)).skip(host.len() as int + 1) =~= path);
    assert(split_once(url.skip(4), ':') == Some((host, path)));
    lemma_build_round_trip(host, segments, name, with_git);
}

} // verus!
