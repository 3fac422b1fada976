//! Character-level helpers shared by the parsers: moving between `str`/`String`
//! and `Vec<char>`, searching, splitting, joining and trimming, each with the
//! sequence-level meaning it computes.
use vstd::prelude::*;
use vstd::string::*;

verus! {

/// The characters of an optional string.
pub open spec fn opt_view(o: Option<String>) -> Option<Seq<char>> {
    match o {
        Some(s) => Some(s@),
        None => None,
    }
}

/// The position of the first `c` in `s`, or `s.len()` when `s` holds none.
pub open spec fn first_index_of(s: Seq<char>, c: char) -> nat
    decreases s.len(),
{
    if s.len() == 0 {
        0
    } else if s[0] == c {
        0
    } else {
        1 + first_index_of(s.drop_first(), c)
    }
}

/// `s` split around its first `c`, as `str::split_once` does.
pub open spec fn split_once(s: Seq<char>, c: char) -> Option<(Seq<char>, Seq<char>)> {
    let i = first_index_of(s, c);
    if i < s.len() {
        Some((s.take(i as int), s.skip(i as int + 1)))
    } else {
        None
    }
}

/// The non-empty pieces of `s` between occurrences of `c`, in order
/// (`s.split(c).filter(|p| !p.is_empty())`).
pub open spec fn split_nonempty(s: Seq<char>, c: char) -> Seq<Seq<char>>
    decreases s.len(),
{
    let i = first_index_of(s, c);
    let head = s.take(i as int);
    let first = if head.len() == 0 {
        Seq::<Seq<char>>::empty()
    } else {
        seq![head]
    };
    if i < s.len() {
        first + split_nonempty(s.skip(i as int + 1), c)
    } else {
        first
    }
}

/// `parts` joined with `sep` between consecutive parts.
pub open spec fn join_with(parts: Seq<Seq<char>>, sep: char) -> Seq<char>
    decreases parts.len(),
{
    if parts.len() == 0 {
        Seq::empty()
    } else if parts.len() == 1 {
        parts[0]
    } else {
        parts[0] + seq![sep] + join_with(parts.drop_first(), sep)
    }
}

/// Whether `c` is Unicode `White_Space`, the property `char::is_whitespace` tests.
pub open spec fn is_white_space(c: char) -> bool {
    ||| ('\u{9}' <= c && c <= '\u{d}')
    ||| c == ' '
    ||| c == '\u{85}'
    ||| c == '\u{a0}'
    ||| c == '\u{1680}'
    ||| ('\u{2000}' <= c && c <= '\u{200a}')
    ||| c == '\u{2028}'
    ||| c == '\u{2029}'
    ||| c == '\u{202f}'
    ||| c == '\u{205f}'
    ||| c == '\u{3000}'
}

/// `line` without one trailing `'\r'`.
pub open spec fn strip_cr(line: Seq<char>) -> Seq<char> {
    if line.len() > 0 && line.last() == '\r' {
        line.drop_last()
    } else {
        line
    }
}

/// Number of leading white-space characters of `s`.
pub open spec fn leading_ws(s: Seq<char>) -> nat
    decreases s.len(),
{
    if s.len() > 0 && is_white_space(s[0]) {
        1 + leading_ws(s.drop_first())
    } else {
        0
    }
}

/// Number of trailing white-space characters of `s`.
pub open spec fn trailing_ws(s: Seq<char>) -> nat
    decreases s.len(),
{
    if s.len() > 0 && is_white_space(s.last()) {
        1 + trailing_ws(s.drop_last())
    } else {
        0
    }
}

/// `s` without leading and trailing white space (`str::trim`).
pub open spec fn trim(s: Seq<char>) -> Seq<char> {
    let t = s.skip(leading_ws(s) as int);
    t.take(t.len() - trailing_ws(t))
}

/// The lines of `s` as `str::lines` yields them: split at `'\n'`, a trailing
/// `'\r'` dropped from each line, and no final empty line after a
/// terminating `'\n'`.
pub open spec fn lines(s: Seq<char>) -> Seq<Seq<char>>
    decreases s.len(),
{
    if s.len() == 0 {
        Seq::empty()
    } else {
        let i = first_index_of(s, '\n');
        let line = strip_cr(s.take(i as int));
        if i < s.len() {
            seq![line] + lines(s.skip(i as int + 1))
        } else {
            seq![line]
        }
    }
}

/// `first_index_of` is within `s`, holds `c` when it is not the end, and
/// no `c` comes before it.
pub proof fn lemma_first_index_le(s: Seq<char>, c: char)
    ensures
        first_index_of(s, c) <= s.len(),
        first_index_of(s, c) < s.len() ==> s[first_index_of(s, c) as int] == c,
        forall|j: int| 0 <= j < first_index_of(s, c) ==> s[j] != c,
    decreases s.len(),
{
    if s.len() > 0 && s[0] != c {
        lemma_first_index_le(s.drop_first(), c);
        assert forall|j: int| 0 <= j < first_index_of(s, c) implies s[j] != c by {
            if j > 0 {
                assert(s[j] == s.drop_first()[j - 1]);
            }
        }
    }
}

/// The first `c` of `a + b` is where `b` starts when `a` holds no `c` and `b`
/// is empty or starts with `c`.
pub proof fn lemma_first_index_at(a: Seq<char>, b: Seq<char>, c: char)
    requires
        forall|j: int| 0 <= j < a.len() ==> a[j] != c,
        b.len() == 0 || b[0] == c,
    ensures
        first_index_of(a + b, c) == a.len(),
    decreases a.len(),
{
    if a.len() == 0 {
        assert(a + b =~= b);
    } else {
        assert((a + b).drop_first() =~= a.drop_first() + b);
        lemma_first_index_at(a.drop_first(), b, c);
    }
}

/// `first_index_of` of `s` is `i` when no `c` precedes `i` and `i` ends `s`
/// or holds `c`.
pub proof fn lemma_first_index_is(s: Seq<char>, c: char, i: int)
    requires
        0 <= i <= s.len(),
        forall|j: int| 0 <= j < i ==> s[j] != c,
        i == s.len() || s[i] == c,
    ensures
        first_index_of(s, c) == i,
{
    assert(s =~= s.take(i) + s.skip(i));
    lemma_first_index_at(s.take(i), s.skip(i), c);
}

/// Joining one more part appends the separator and the part (or is the
/// part alone when there was none).
pub proof fn lemma_join_push(parts: Seq<Seq<char>>, x: Seq<char>, sep: char)
    ensures
        join_with(parts.push(x), sep) == if parts.len() == 0 {
            x
        } else {
            join_with(parts, sep) + seq![sep] + x
        },
    decreases parts.len(),
{
    if parts.len() == 0 {
        assert(parts.push(x).len() == 1);
        assert(parts.push(x)[0] == x);
    } else if parts.len() == 1 {
        assert(parts.push(x).drop_first() =~= seq![x]);
        assert(join_with(seq![x], sep) == x);
        assert(parts.push(x)[0] == parts[0]);
    } else {
        assert(parts.push(x).drop_first() =~= parts.drop_first().push(x));
        lemma_join_push(parts.drop_first(), x, sep);
        assert(parts.push(x)[0] == parts[0]);
        assert(join_with(parts.push(x), sep) =~= join_with(parts, sep) + seq![sep] + x);
    }
}

/// Splitting `a + b` where `a` holds no separator and `b` starts with one.
pub proof fn lemma_split_at_sep(a: Seq<char>, b: Seq<char>, c: char)
    requires
        forall|j: int| 0 <= j < a.len() ==> a[j] != c,
        b.len() > 0,
        b[0] == c,
    ensures
        split_nonempty(a + b, c) == (if a.len() == 0 {
            Seq::<Seq<char>>::empty()
        } else {
            seq![a]
        }) + split_nonempty(b.skip(1), c),
        c == '\n' ==> lines(a + b) == seq![strip_cr(a)] + lines(b.skip(1)),
{
    lemma_first_index_at(a, b, c);
    assert((a + b).take(a.len() as int) =~= a);
    assert((a + b).skip(a.len() as int + 1) =~= b.skip(1));
}

/// Splitting a sequence that holds no separator.
pub proof fn lemma_split_no_sep(a: Seq<char>, c: char)
    requires
        forall|j: int| 0 <= j < a.len() ==> a[j] != c,
    ensures
        split_nonempty(a, c) == (if a.len() == 0 {
            Seq::<Seq<char>>::empty()
        } else {
            seq![a]
        }),
        c == '\n' && a.len() > 0 ==> lines(a) == seq![strip_cr(a)],
{
    assert(a + Seq::<char>::empty() =~= a);
    lemma_first_index_at(a, Seq::<char>::empty(), c);
    assert(a.take(a.len() as int) =~= a);
}

/// `String::push`: appends one character to the string's contents.
#[verifier::external_body]
fn push_char(s: &mut String, c: char)
    ensures
        final(s)@ == old(s)@.push(c),
{
    s.push(c)
}

/// The characters of `s`, in order.
pub fn chars_of(s: &str) -> (v: Vec<char>)
    ensures
        v@ == s@,
{
    let mut v: Vec<char> = Vec::new();
    for c in it: s.chars()
        invariant
            v@ == it.seq().take(it.index() as int),
    {
        v.push(c);
    }
    v
}

/// A `String` holding `v[start..end]`.
pub fn string_of_range(v: &Vec<char>, start: usize, end: usize) -> (s: String)
    requires
        start <= end <= v@.len(),
    ensures
        s@ == v@.subrange(start as int, end as int),
{
    let mut s = String::new();
    let mut i = start;
    while i < end
        invariant
            start <= i <= end <= v@.len(),
            s@ == v@.subrange(start as int, i as int),
        decreases end - i,
    {
        push_char(&mut s, v[i]);
        assert(v@.subrange(start as int, i + 1) == v@.subrange(start as int, i as int).push(
            v@[i as int],
        ));
        i = i + 1;
    }
    s
}

/// A `String` holding exactly the characters of `v`.
pub fn string_of(v: &Vec<char>) -> (s: String)
    ensures
        s@ == v@,
{
    let s = string_of_range(v, 0, v.len());
    assert(v@.subrange(0, v@.len() as int) == v@);
    s
}

/// `v[start..end]` as a new vector.
pub fn slice_chars(v: &Vec<char>, start: usize, end: usize) -> (r: Vec<char>)
    requires
        start <= end <= v@.len(),
    ensures
        r@ == v@.subrange(start as int, end as int),
{
    let mut r: Vec<char> = Vec::new();
    let mut i = start;
    while i < end
        invariant
            start <= i <= end <= v@.len(),
            r@ == v@.subrange(start as int, i as int),
        decreases end - i,
    {
        r.push(v[i]);
        assert(v@.subrange(start as int, i + 1) == v@.subrange(start as int, i as int).push(
            v@[i as int],
        ));
        i = i + 1;
    }
    r
}

/// Position of the first `c` in `v`, or `v.len()` when there is none.
pub fn index_of(v: &Vec<char>, c: char) -> (i: usize)
    ensures
        i == first_index_of(v@, c),
{
    let mut i: usize = 0;
    while i < v.len()
        invariant
            i <= v@.len(),
            forall|j: int| 0 <= j < i ==> v@[j] != c,
        decreases v@.len() - i,
    {
        if v[i] == c {
            proof {
                lemma_first_index_is(v@, c, i as int);
            }
            return i;
        }
        i = i + 1;
    }
    proof {
        lemma_first_index_is(v@, c, i as int);
    }
    i
}

/// Whether `p` is a prefix of `v`.
pub fn starts_with(v: &Vec<char>, p: &Vec<char>) -> (b: bool)
    ensures
        b == p@.is_prefix_of(v@),
{
    if p.len() > v.len() {
        return false;
    }
    let mut i: usize = 0;
    while i < p.len()
        invariant
            p@.len() <= v@.len(),
            i <= p@.len(),
            forall|j: int| 0 <= j < i ==> p@[j] == v@[j],
        decreases p@.len() - i,
    {
        if p[i] != v[i] {
            assert(p@[i as int] != v@.subrange(0, p@.len() as int)[i as int]);
            return false;
        }
        i = i + 1;
    }
    assert(p@ =~= v@.subrange(0, p@.len() as int));
    true
}

/// Whether `p` is a suffix of `v`.
pub fn ends_with(v: &Vec<char>, p: &Vec<char>) -> (b: bool)
    ensures
        b == p@.is_suffix_of(v@),
{
    if p.len() > v.len() {
        return false;
    }
    let off = v.len() - p.len();
    let mut i: usize = 0;
    while i < p.len()
        invariant
            p@.len() <= v@.len(),
            off == v@.len() - p@.len(),
            i <= p@.len(),
            forall|j: int| 0 <= j < i ==> p@[j] == v@[off + j],
        decreases p@.len() - i,
    {
        assert(off + i < v.len());
        if p[i] != v[off + i] {
            assert(p@[i as int] != v@.subrange(off as int, v@.len() as int)[i as int]);
            return false;
        }
        i = i + 1;
    }
    assert(p@ =~= v@.subrange(off as int, v@.len() as int));
    true
}

/// The non-empty pieces of `v` between occurrences of `c`, in order.
pub fn split_segments(v: &Vec<char>, c: char) -> (r: Vec<String>)
    ensures
        r.deep_view() == split_nonempty(v@, c),
{
    let mut r: Vec<String> = Vec::new();
    let mut cur: Vec<char> = Vec::new();
    let n = v.len();
    assert(cur@ + v@.skip(0) =~= v@);
    assert(r.deep_view() =~= Seq::<Seq<char>>::empty());
    assert(r.deep_view() + split_nonempty(v@, c) =~= split_nonempty(v@, c));
    for i in 0..n
        invariant
            n == v@.len(),
            forall|j: int| 0 <= j < cur@.len() ==> cur@[j] != c,
            split_nonempty(v@, c) == r.deep_view() + split_nonempty(cur@ + v@.skip(i as int), c),
    {
        let ch = v[i];
        if ch == c {
            proof {
                lemma_split_at_sep(cur@, v@.skip(i as int), c);
                assert(v@.skip(i as int).skip(1) =~= v@.skip(i + 1));
            }
            if cur.len() > 0 {
                let ghost old_r = r.deep_view();
                let s = string_of(&cur);
                r.push(s);
                assert(r.deep_view() =~= old_r.push(cur@));
                assert(old_r + seq![cur@] + split_nonempty(v@.skip(i + 1), c) =~= r.deep_view()
                    + split_nonempty(Seq::<char>::empty() + v@.skip(i + 1), c)) by {
                    assert(Seq::<char>::empty() + v@.skip(i + 1) =~= v@.skip(i + 1));
                }
            } else {
                assert(Seq::<char>::empty() + v@.skip(i + 1) =~= v@.skip(i + 1));
                assert(Seq::<Seq<char>>::empty() + split_nonempty(v@.skip(i + 1), c)
                    =~= split_nonempty(v@.skip(i + 1), c));
            }
            cur = Vec::new();
        } else {
            assert(cur@.push(ch) + v@.skip(i + 1) =~= cur@ + v@.skip(i as int));
            cur.push(ch);
        }
    }
    proof {
        assert(cur@ + v@.skip(n as int) =~= cur@);
        lemma_split_no_sep(cur@, c);
    }
    if cur.len() > 0 {
        let ghost old_r = r.deep_view();
        let s = string_of(&cur);
        r.push(s);
        assert(r.deep_view() =~= old_r.push(cur@));
        assert(r.deep_view() =~= old_r + seq![cur@]);
    } else {
        assert(r.deep_view() + Seq::<Seq<char>>::empty() =~= r.deep_view());
    }
    r
}

/// The lines of `v`, as `str::lines` yields them.
pub fn lines_of(v: &Vec<char>) -> (r: Vec<String>)
    ensures
        r.deep_view() == lines(v@),
{
    let mut r: Vec<String> = Vec::new();
    let mut cur: Vec<char> = Vec::new();
    let n = v.len();
    assert(cur@ + v@.skip(0) =~= v@);
    assert(r.deep_view() =~= Seq::<Seq<char>>::empty());
    assert(r.deep_view() + lines(v@) =~= lines(v@));
    for i in 0..n
        invariant
            n == v@.len(),
            forall|j: int| 0 <= j < cur@.len() ==> cur@[j] != '\n',
            lines(v@) == r.deep_view() + lines(cur@ + v@.skip(i as int)),
    {
        let ch = v[i];
        if ch == '\n' {
            proof {
                lemma_split_at_sep(cur@, v@.skip(i as int), '\n');
                assert(v@.skip(i as int).skip(1) =~= v@.skip(i + 1));
                assert(Seq::<char>::empty() + v@.skip(i + 1) =~= v@.skip(i + 1));
            }
            let ghost old_r = r.deep_view();
            let len = cur.len();
            let s = if len > 0 && cur[len - 1] == '\r' {
                assert(cur@.drop_last() =~= cur@.subrange(0, len - 1));
                string_of_range(&cur, 0, len - 1)
            } else {
                string_of(&cur)
            };
            r.push(s);
            assert(r.deep_view() =~= old_r.push(strip_cr(cur@)));
            assert(old_r + (seq![strip_cr(cur@)] + lines(v@.skip(i + 1))) =~= r.deep_view()
                + lines(Seq::<char>::empty() + v@.skip(i + 1)));
            cur = Vec::new();
        } else {
            assert(cur@.push(ch) + v@.skip(i + 1) =~= cur@ + v@.skip(i as int));
            cur.push(ch);
        }
    }
    proof {
        assert(cur@ + v@.skip(n as int) =~= cur@);
        lemma_split_no_sep(cur@, '\n');
    }
    let len = cur.len();
    if len > 0 {
        let ghost old_r = r.deep_view();
        let s = if cur[len - 1] == '\r' {
            assert(cur@.drop_last() =~= cur@.subrange(0, len - 1));
            string_of_range(&cur, 0, len - 1)
        } else {
            string_of(&cur)
        };
        r.push(s);
        assert(r.deep_view() =~= old_r.push(strip_cr(cur@)));
        assert(r.deep_view() =~= old_r + seq![strip_cr(cur@)]);
    } else {
        assert(r.deep_view() + Seq::<Seq<char>>::empty() =~= r.deep_view());
    }
    r
}

/// `parts` joined with `sep` between consecutive parts.
pub fn join_strings(parts: &Vec<String>, sep: char) -> (s: String)
    ensures
        s@ == join_with(parts.deep_view(), sep),
{
    let mut s = String::new();
    let n = parts.len();
    for i in 0..n
        invariant
            n == parts@.len(),
            s@ == join_with(parts.deep_view().take(i as int), sep),
    {
        proof {
            lemma_join_push(parts.deep_view().take(i as int), parts@[i as int]@, sep);
            assert(parts.deep_view().take(i + 1) =~= parts.deep_view().take(i as int).push(
                parts@[i as int]@,
            ));
        }
        if i > 0 {
            push_char(&mut s, sep);
        }
        s.append(parts[i].as_str());
    }
    assert(parts.deep_view().take(n as int) =~= parts.deep_view());
    s
}

/// Whether `c` is white space (`char::is_whitespace`).
pub fn is_ws(c: char) -> (b: bool)
    ensures
        b == is_white_space(c),
{
    ('\u{9}' <= c && c <= '\u{d}') || c == ' ' || c == '\u{85}' || c == '\u{a0}' || c
        == '\u{1680}' || ('\u{2000}' <= c && c <= '\u{200a}') || c == '\u{2028}' || c
        == '\u{2029}' || c == '\u{202f}' || c == '\u{205f}' || c == '\u{3000}'
}

/// `s` without leading and trailing white space (`str::trim`).
pub fn trim_str(s: &str) -> (r: String)
    ensures
        r@ == trim(s@),
{
    let v = chars_of(s);
    let n = v.len();
    let mut lo: usize = 0;
    assert(v@.skip(0) =~= v@);
    while lo < n && is_ws(v[lo])
        invariant
            n == v@.len(),
            lo <= n,
            leading_ws(v@) == lo + leading_ws(v@.skip(lo as int)),
        decreases n - lo,
    {
        assert(v@.skip(lo as int).drop_first() =~= v@.skip(lo + 1));
        lo = lo + 1;
    }
    assert(leading_ws(v@.skip(lo as int)) == 0);
    let ghost t = v@.skip(lo as int);
    let mut hi: usize = n;
    assert(t.take(n - lo) =~= t);
    while hi > lo && is_ws(v[hi - 1])
        invariant
            n == v@.len(),
            lo <= hi <= n,
            t == v@.skip(lo as int),
            trailing_ws(t) == (n - hi) + trailing_ws(t.take(hi - lo)),
        decreases hi - lo,
    {
        assert(t.take(hi - lo).drop_last() =~= t.take(hi - lo - 1));
        assert(t.take(hi - lo).last() == v@[hi - 1]);
        hi = hi - 1;
    }
    assert(trailing_ws(t.take(hi - lo)) == 0) by {
        if hi > lo {
            assert(t.take(hi - lo).last() == v@[hi - 1]);
        }
    }
    assert(t.take(t.len() - trailing_ws(t)) =~= v@.subrange(lo as int, hi as int));
    string_of_range(&v, lo, hi)
}

} // verus!

verus! {

/// Every piece `split_nonempty` yields is non-empty and free of the separator.
pub proof fn lemma_split_pieces(s: Seq<char>, c: char)
    ensures
        forall|k: int|
            0 <= k < split_nonempty(s, c).len() ==> #[trigger] split_nonempty(s, c)[k].len() > 0
                && !split_nonempty(s, c)[k].contains(c),
    decreases s.len(),
{
    lemma_first_index_le(s, c);
    let i = first_index_of(s, c);
    let head = s.take(i as int);
    assert(!head.contains(c)) by {
        if head.contains(c) {
            let j = choose|j: int| 0 <= j < head.len() && head[j] == c;
            assert(s[j] == c);
        }
    }
    let first = if head.len() == 0 {
        Seq::<Seq<char>>::empty()
    } else {
        seq![head]
    };
    if i < s.len() {
        let rs = split_nonempty(s.skip(i as int + 1), c);
        lemma_split_pieces(s.skip(i as int + 1), c);
        assert(split_nonempty(s, c) == first + rs);
        assert forall|k: int| 0 <= k < split_nonempty(s, c).len() implies #[trigger] split_nonempty(
            s,
            c,
        )[k].len() > 0 && !split_nonempty(s, c)[k].contains(c) by {
            if k < first.len() {
                assert(split_nonempty(s, c)[k] == head);
            } else {
                assert(split_nonempty(s, c)[k] == rs[k - first.len()]);
            }
        }
    } else {
        assert(split_nonempty(s, c) == first);
    }
}

/// Splitting a joined sequence of non-empty, separator-free parts gives the
/// parts back.
pub proof fn lemma_split_join(parts: Seq<Seq<char>>, c: char)
    requires
        forall|k: int| 0 <= k < parts.len() ==> #[trigger] parts[k].len() > 0 && !parts[k].contains(c),
    ensures
        split_nonempty(join_with(parts, c), c) == parts,
    decreases parts.len(),
{
    if parts.len() == 0 {
        lemma_split_no_sep(Seq::<char>::empty(), c);
        assert(split_nonempty(join_with(parts, c), c) =~= parts);
    } else if parts.len() == 1 {
        let a = parts[0];
        assert(forall|j: int| 0 <= j < a.len() ==> a[j] != c) by {
            assert forall|j: int| 0 <= j < a.len() implies a[j] != c by {
                if a[j] == c {
                    assert(a.contains(c));
                }
            }
        }
        lemma_split_no_sep(a, c);
        assert(split_nonempty(join_with(parts, c), c) =~= parts);
    } else {
        let a = parts[0];
        let rest = parts.drop_first();
        assert(forall|j: int| 0 <= j < a.len() ==> a[j] != c) by {
            assert forall|j: int| 0 <= j < a.len() implies a[j] != c by {
                if a[j] == c {
                    assert(a.contains(c));
                }
            }
        }
        let b = seq![c] + join_with(rest, c);
        assert(join_with(parts, c) =~= a + b);
        lemma_split_at_sep(a, b, c);
        assert(b.skip(1) =~= join_with(rest, c));
        assert forall|k: int| 0 <= k < rest.len() implies #[trigger] rest[k].len() > 0 && !rest[k].contains(c) by {
            assert(rest[k] == parts[k + 1]);
        }
        lemma_split_join(rest, c);
        assert(split_nonempty(join_with(parts, c), c) =~= seq![a] + rest);
        assert(seq![a] + rest =~= parts);
    }
}

} // verus!

verus! {

/// Whether `a` and `b` hold the same characters.
pub fn eq_str(a: &str, b: &str) -> (r: bool)
    ensures
        r == (a@ == b@),
{
    a.to_owned() == b.to_owned()
}

/// The characters of an optional string slice.
pub open spec fn opt_str_view(o: Option<&str>) -> Option<Seq<char>> {
    match o {
        Some(s) => Some(s@),
        None => None,
    }
}

proof fn lemma_leading_ws(s: Seq<char>)
    ensures
        leading_ws(s) <= s.len(),
        forall|j: int| 0 <= j < leading_ws(s) ==> is_white_space(#[trigger] s[j]),
        leading_ws(s) < s.len() ==> !is_white_space(s[leading_ws(s) as int]),
    decreases s.len(),
{
    if s.len() > 0 && is_white_space(s[0]) {
        lemma_leading_ws(s.drop_first());
        assert forall|j: int| 0 <= j < leading_ws(s) implies is_white_space(#[trigger] s[j]) by {
            if j > 0 {
                assert(s[j] == s.drop_first()[j - 1]);
            }
        }
        if leading_ws(s) < s.len() {
            assert(s[leading_ws(s) as int] == s.drop_first()[leading_ws(s) - 1]);
        }
    }
}

proof fn lemma_trailing_ws(s: Seq<char>)
    ensures
        trailing_ws(s) <= s.len(),
        forall|j: int| s.len() - trailing_ws(s) <= j < s.len() ==> is_white_space(#[trigger] s[j]),
        trailing_ws(s) < s.len() ==> !is_white_space(s[s.len() - trailing_ws(s) - 1]),
    decreases s.len(),
{
    if s.len() > 0 && is_white_space(s.last()) {
        lemma_trailing_ws(s.drop_last());
        assert forall|j: int| s.len() - trailing_ws(s) <= j < s.len() implies is_white_space(
            #[trigger] s[j],
        ) by {
            if j < s.len() - 1 {
                assert(s[j] == s.drop_last()[j]);
            }
        }
        if trailing_ws(s) < s.len() {
            assert(s[s.len() - trailing_ws(s) - 1] == s.drop_last()[s.len() - trailing_ws(s) - 1]);
        }
    }
}

/// Trimming removes exactly the white space at both ends: the result is a
/// stretch of `s` with only white space before and after it, and, unless
/// it is empty, it neither starts nor ends with white space.
pub proof fn law_trim_strips_white_space(s: Seq<char>)
    ensures
        exists|l: int|
            0 <= l && l + trim(s).len() <= s.len() && trim(s) == #[trigger] s.subrange(
                l,
                l + trim(s).len(),
            )
                && (forall|j: int| 0 <= j < l ==> is_white_space(#[trigger] s[j])) && (forall|j: int|
                l + trim(s).len() <= j < s.len() ==> is_white_space(#[trigger] s[j])),
        trim(s).len() > 0 ==> !is_white_space(trim(s)[0]) && !is_white_space(trim(s).last()),
{
    let l = leading_ws(s) as int;
    let t = s.skip(l);
    lemma_leading_ws(s);
    lemma_trailing_ws(t);
    let m = t.len() - trailing_ws(t);
    assert(trim(s) =~= s.subrange(l, l + m));
    assert(trim(s).len() == m);
    assert forall|j: int| l + m <= j < s.len() implies is_white_space(#[trigger] s[j]) by {
        assert(s[j] == t[j - l]);
    }
    if m > 0 {
        assert(trim(s)[0] == s[l]);
        assert(trim(s).last() == t[t.len() - trailing_ws(t) - 1]);
    }
}

} // verus!
