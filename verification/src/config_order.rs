//! The order of entries in a git config file. The key-to-values model of
//! `category_config` says what each key holds; this one also says where each
//! entry stands, which matters because categories are enumerated - and
//! routed - in the order their entries appear.
use vstd::prelude::*;
use crate::category_config::{add_all, replace_edits, ConfigEdit};

verus! {

broadcast use vstd::seq_lib::group_seq_properties;

/// One config entry: a key and one of its values.
pub type Entry = (Seq<char>, Seq<char>);

/// No entry of `s` has key `k`.
pub open spec fn key_free(s: Seq<Entry>, k: Seq<char>) -> bool {
    forall|j: int| 0 <= j < s.len() ==> (#[trigger] s[j]).0 != k
}

/// Every entry of `s` has key `k`.
pub open spec fn all_key(s: Seq<Entry>, k: Seq<char>) -> bool {
    forall|j: int| 0 <= j < s.len() ==> (#[trigger] s[j]).0 == k
}

/// The values of `k`'s entries, in file order.
pub open spec fn values_in(s: Seq<Entry>, k: Seq<char>) -> Seq<Seq<char>>
    decreases s.len(),
{
    if s.len() == 0 {
        Seq::empty()
    } else if s[0].0 == k {
        seq![s[0].1] + values_in(s.drop_first(), k)
    } else {
        values_in(s.drop_first(), k)
    }
}

/// The entries of keys other than `k`, in file order.
pub open spec fn without_key(s: Seq<Entry>, k: Seq<char>) -> Seq<Entry>
    decreases s.len(),
{
    if s.len() == 0 {
        Seq::empty()
    } else if s[0].0 == k {
        without_key(s.drop_first(), k)
    } else {
        seq![s[0]] + without_key(s.drop_first(), k)
    }
}

/// The position of `k`'s first entry, or the end when it has none.
pub open spec fn first_key_index(s: Seq<Entry>, k: Seq<char>) -> nat
    decreases s.len(),
{
    if s.len() == 0 {
        0
    } else if s[0].0 == k {
        0
    } else {
        1 + first_key_index(s.drop_first(), k)
    }
}

/// The position just after `k`'s last entry, if it has one.
pub open spec fn key_end(s: Seq<Entry>, k: Seq<char>) -> Option<nat>
    decreases s.len(),
{
    if s.len() == 0 {
        None
    } else if s.last().0 == k {
        Some(s.len())
    } else {
        key_end(s.drop_last(), k)
    }
}

/// One entry for each of `values`, all with key `k`, in order.
pub open spec fn entries_of(k: Seq<char>, values: Seq<Seq<char>>) -> Seq<Entry> {
    values.map_values(|v: Seq<char>| (k, v))
}

/// `s` with `e` inserted at position `i`.
pub open spec fn insert_at(s: Seq<Entry>, i: int, e: Entry) -> Seq<Entry> {
    s.take(i) + seq![e] + s.skip(i)
}

/// The file after one edit, as git writes it: `--global <key> <value>`
/// overwrites the key's single entry in place, or appends one, and refuses a
/// key with several; `--replace-all` leaves one entry for the key, where its
/// first entry stood (at the end if it had none); `--add` inserts right
/// after the key's last entry (at the end if it had none); `--unset`
/// removes a key's single entry.
pub open spec fn apply_ordered(s: Seq<Entry>, e: ConfigEdit) -> Option<Seq<Entry>> {
    match e {
        ConfigEdit::SetValue { key, value } => {
            let n = values_in(s, key).len();
            if n == 0 {
                Some(s.push((key, value)))
            } else if n == 1 {
                Some(s.update(first_key_index(s, key) as int, (key, value)))
            } else {
                None
            }
        },
        ConfigEdit::ReplaceAll { key, value } => Some(
            insert_at(without_key(s, key), first_key_index(s, key) as int, (key, value)),
        ),
        ConfigEdit::Add { key, value } => Some(
            insert_at(
                s,
                match key_end(s, key) {
                    Some(j) => j as int,
                    None => s.len() as int,
                },
                (key, value),
            ),
        ),
        ConfigEdit::Unset { key } => if values_in(s, key).len() <= 1 {
            Some(without_key(s, key))
        } else {
            None
        },
        ConfigEdit::ReadOnly => Some(s),
    }
}

/// The file after edits applied in order; `None` once one of them fails.
pub open spec fn apply_ordered_all(s: Seq<Entry>, es: Seq<ConfigEdit>) -> Option<Seq<Entry>>
    decreases es.len(),
{
    if es.len() == 0 {
        Some(s)
    } else {
        match apply_ordered(s, es[0]) {
            Some(t) => apply_ordered_all(t, es.drop_first()),
            None => None,
        }
    }
}

proof fn lemma_concat(a: Seq<Entry>, b: Seq<Entry>, k: Seq<char>)
    ensures
        values_in(a + b, k) == values_in(a, k) + values_in(b, k),
        without_key(a + b, k) == without_key(a, k) + without_key(b, k),
        key_free(a, k) ==> first_key_index(a + b, k) == a.len() + first_key_index(b, k),
    decreases a.len(),
{
    if a.len() == 0 {
        assert(a + b =~= b);
        assert(values_in(a, k) + values_in(b, k) =~= values_in(b, k));
        assert(without_key(a, k) + without_key(b, k) =~= without_key(b, k));
    } else {
        assert((a + b).drop_first() =~= a.drop_first() + b);
        assert((a + b)[0] == a[0]);
        lemma_concat(a.drop_first(), b, k);
        if a[0].0 == k {
            assert(seq![a[0].1] + values_in(a.drop_first(), k) + values_in(b, k) =~= seq![a[0].1]
                + (values_in(a.drop_first(), k) + values_in(b, k)));
        } else {
            assert(seq![a[0]] + without_key(a.drop_first(), k) + without_key(b, k) =~= seq![a[0]]
                + (without_key(a.drop_first(), k) + without_key(b, k)));
            if key_free(a, k) {
                assert(key_free(a.drop_first(), k)) by {
                    assert forall|j: int| 0 <= j < a.drop_first().len() implies (#[trigger] a.drop_first()[j]).0 != k by {
                        assert(a.drop_first()[j] == a[j + 1]);
                    }
                }
            }
        }
        if key_free(a, k) {
            assert(a[0].0 != k);
        }
    }
}

proof fn lemma_key_free(s: Seq<Entry>, k: Seq<char>)
    ensures
        key_free(s, k) <==> values_in(s, k).len() == 0,
        key_free(s, k) ==> without_key(s, k) == s && first_key_index(s, k) == s.len() && key_end(s, k) is None,
        key_free(without_key(s, k), k),
    decreases s.len(),
{
    if s.len() > 0 {
        lemma_key_free(s.drop_first(), k);
        assert forall|j: int| 0 <= j < s.drop_first().len() implies #[trigger] s.drop_first()[j] == s[j + 1] by {}
        if key_free(s, k) {
            assert(s[0].0 != k);
            assert(key_free(s.drop_first(), k));
            assert(seq![s[0]] + s.drop_first() =~= s);
            lemma_key_end_free(s, k);
        }
        if values_in(s, k).len() == 0 {
            assert(s[0].0 != k);
            assert forall|j: int| 0 <= j < s.len() implies (#[trigger] s[j]).0 != k by {
                if j > 0 {
                    assert(s[j] == s.drop_first()[j - 1]);
                }
            }
        }
        let w = without_key(s.drop_first(), k);
        if s[0].0 != k {
            assert forall|j: int| 0 <= j < (seq![s[0]] + w).len() implies (#[trigger] (seq![s[0]] + w)[j]).0 != k by {
                if j > 0 {
                    assert((seq![s[0]] + w)[j] == w[j - 1]);
                }
            }
        }
    }
}

proof fn lemma_key_end_free(s: Seq<Entry>, k: Seq<char>)
    requires
        key_free(s, k),
    ensures
        key_end(s, k) is None,
    decreases s.len(),
{
    if s.len() > 0 {
        assert(s.last() == s[s.len() - 1]);
        assert(key_free(s.drop_last(), k)) by {
            assert forall|j: int| 0 <= j < s.drop_last().len() implies (#[trigger] s.drop_last()[j]).0 != k by {
                assert(s.drop_last()[j] == s[j]);
            }
        }
        lemma_key_end_free(s.drop_last(), k);
    }
}

proof fn lemma_key_end_concat(a: Seq<Entry>, c: Seq<Entry>, k: Seq<char>)
    requires
        key_free(c, k),
    ensures
        key_end(a + c, k) == key_end(a, k),
    decreases c.len(),
{
    if c.len() == 0 {
        assert(a + c =~= a);
    } else {
        assert((a + c).last() == c[c.len() - 1]);
        assert((a + c).drop_last() =~= a + c.drop_last());
        assert(key_free(c.drop_last(), k)) by {
            assert forall|j: int| 0 <= j < c.drop_last().len() implies (#[trigger] c.drop_last()[j]).0 != k by {
                assert(c.drop_last()[j] == c[j]);
            }
        }
        lemma_key_end_concat(a, c.drop_last(), k);
    }
}

proof fn lemma_all_key(b: Seq<Entry>, k: Seq<char>)
    requires
        all_key(b, k),
    ensures
        values_in(b, k) == b.map_values(|e: Entry| e.1),
        without_key(b, k) == Seq::<Entry>::empty(),
        b.len() > 0 ==> first_key_index(b, k) == 0,
        b.len() > 0 ==> key_end(b, k) == Some(b.len()),
    decreases b.len(),
{
    if b.len() > 0 {
        assert(all_key(b.drop_first(), k)) by {
            assert forall|j: int| 0 <= j < b.drop_first().len() implies (#[trigger] b.drop_first()[j]).0 == k by {
                assert(b.drop_first()[j] == b[j + 1]);
            }
        }
        lemma_all_key(b.drop_first(), k);
        assert(b[0].0 == k);
        assert(b.last() == b[b.len() - 1]);
        assert(seq![b[0].1] + b.drop_first().map_values(|e: Entry| e.1) =~= b.map_values(
            |e: Entry| e.1,
        ));
    }
}

proof fn lemma_entries_of(k: Seq<char>, values: Seq<Seq<char>>)
    ensures
        all_key(entries_of(k, values), k),
        entries_of(k, values).map_values(|e: Entry| e.1) == values,
{
    assert(entries_of(k, values).map_values(|e: Entry| e.1) =~= values);
}

/// An entry block of key `k` between two stretches free of `k`.
proof fn lemma_sandwich(a: Seq<Entry>, b: Seq<Entry>, c: Seq<Entry>, k: Seq<char>)
    requires
        key_free(a, k),
        key_free(c, k),
        all_key(b, k),
        b.len() > 0,
    ensures
        values_in(a + b + c, k) == b.map_values(|e: Entry| e.1),
        without_key(a + b + c, k) == a + c,
        first_key_index(a + b + c, k) == a.len(),
        key_end(a + b + c, k) == Some((a.len() + b.len()) as nat),
{
    lemma_concat(a, b + c, k);
    lemma_concat(b, c, k);
    lemma_key_free(a, k);
    lemma_key_free(c, k);
    lemma_all_key(b, k);
    assert(a + b + c =~= a + (b + c));
    assert(values_in(a, k) + (values_in(b, k) + values_in(c, k)) =~= b.map_values(|e: Entry| e.1));
    assert(without_key(a, k) + (without_key(b, k) + without_key(c, k)) =~= a + c);
    lemma_key_end_concat(a + b, c, k);
    assert((a + b).last() == b[b.len() - 1]);
    assert((a + b).len() > 0);
}

proof fn lemma_first_key_index(s: Seq<Entry>, k: Seq<char>)
    ensures
        first_key_index(s, k) <= s.len(),
        key_free(s.take(first_key_index(s, k) as int), k),
        first_key_index(s, k) < s.len() ==> s[first_key_index(s, k) as int].0 == k,
    decreases s.len(),
{
    if s.len() > 0 && s[0].0 != k {
        lemma_first_key_index(s.drop_first(), k);
        let i = first_key_index(s, k) as int;
        assert forall|j: int| 0 <= j < s.take(i).len() implies (#[trigger] s.take(i)[j]).0 != k by {
            if j > 0 {
                assert(s.take(i)[j] == s.drop_first().take(i - 1)[j - 1]);
            }
        }
        if i < s.len() {
            assert(s[i] == s.drop_first()[i - 1]);
        }
    }
}

/// Appending values after a block of key `k` extends the block in place.
proof fn lemma_adds(a: Seq<Entry>, b: Seq<Entry>, c: Seq<Entry>, k: Seq<char>, rest: Seq<Seq<char>>)
    requires
        key_free(a, k),
        key_free(c, k),
        all_key(b, k),
        b.len() > 0,
    ensures
        apply_ordered_all(a + b + c, add_all(k, rest)) == Some(a + (b + entries_of(k, rest)) + c),
    decreases rest.len(),
{
    if rest.len() == 0 {
        assert(add_all(k, rest) =~= Seq::<ConfigEdit>::empty());
        assert(b + entries_of(k, rest) =~= b);
    } else {
        lemma_sandwich(a, b, c, k);
        let b1 = b.push((k, rest[0]));
        let s = a + b + c;
        let j = (a.len() + b.len()) as int;
        assert(add_all(k, rest)[0] == ConfigEdit::Add { key: k, value: rest[0] });
        assert(insert_at(s, j, (k, rest[0])) =~= a + b1 + c);
        assert(apply_ordered(s, add_all(k, rest)[0]) == Some(a + b1 + c));
        assert(add_all(k, rest).drop_first() =~= add_all(k, rest.drop_first()));
        assert(all_key(b1, k)) by {
            assert forall|i: int| 0 <= i < b1.len() implies (#[trigger] b1[i]).0 == k by {
                if i < b.len() {
                    assert(b1[i] == b[i]);
                }
            }
        }
        lemma_adds(a, b1, c, k, rest.drop_first());
        assert(b1 + entries_of(k, rest.drop_first()) =~= b + entries_of(k, rest));
    }
}

/// The entries of other keys split where `k`'s first entry stood: the part
/// before it is the file's own prefix up to there.
proof fn lemma_split_at_first(s: Seq<Entry>, k: Seq<char>)
    ensures
        ({
            let w = without_key(s, k);
            let i = first_key_index(s, k) as int;
            &&& i <= w.len()
            &&& w.take(i) == s.take(i)
            &&& key_free(w.take(i), k)
            &&& key_free(w.skip(i), k)
            &&& w.take(i) + w.skip(i) == w
        }),
{
    let w = without_key(s, k);
    let i = first_key_index(s, k) as int;
    lemma_first_key_index(s, k);
    assert(s =~= s.take(i) + s.skip(i));
    lemma_concat(s.take(i), s.skip(i), k);
    lemma_key_free(s.take(i), k);
    lemma_key_free(s, k);
    assert(w.take(i) =~= s.take(i));
    assert(key_free(w.skip(i), k)) by {
        assert forall|j: int| 0 <= j < w.skip(i).len() implies (#[trigger] w.skip(i)[j]).0 != k by {
            assert(w.skip(i)[j] == w[i + j]);
        }
    }
    assert(w.take(i) + w.skip(i) =~= w);
}

/// `git config --replace-all <key> <value>` drops every entry of the key
/// and leaves one, holding `value`, where the key's first entry stood (at
/// the end if it had none); every other entry keeps its place and order.
pub proof fn law_replace_all_keeps_position(store: Seq<Entry>, key: Seq<char>, value: Seq<char>)
    ensures
        ({
            let after = apply_ordered(store, ConfigEdit::ReplaceAll { key, value })->0;
            let i = first_key_index(store, key) as int;
            &&& values_in(after, key) == seq![value]
            &&& without_key(after, key) == without_key(store, key)
            &&& first_key_index(after, key) == i
            &&& after.take(i) == store.take(i)
            &&& after[i] == (key, value)
        }),
{
    let w = without_key(store, key);
    let i = first_key_index(store, key) as int;
    lemma_split_at_first(store, key);
    let b = seq![(key, value)];
    assert(all_key(b, key));
    lemma_sandwich(w.take(i), b, w.skip(i), key);
    let after = insert_at(w, i, (key, value));
    assert(after =~= w.take(i) + b + w.skip(i));
    assert(b.map_values(|e: Entry| e.1) =~= seq![value]);
    assert(after.take(i) =~= w.take(i));
}

/// The file after a single-entry overwrite (`--global`) of a key holding
/// at most one entry.
proof fn lemma_set_value_shape(store: Seq<Entry>, key: Seq<char>, value: Seq<char>)
    requires
        values_in(store, key).len() <= 1,
    ensures
        ({
            let w = without_key(store, key);
            let i = first_key_index(store, key) as int;
            apply_ordered(store, ConfigEdit::SetValue { key, value }) == Some(
                w.take(i) + seq![(key, value)] + w.skip(i),
            )
        }),
{
    let w = without_key(store, key);
    let i = first_key_index(store, key) as int;
    let a = w.take(i);
    let c = w.skip(i);
    lemma_split_at_first(store, key);
    lemma_first_key_index(store, key);
    lemma_key_free(store, key);
    if values_in(store, key).len() == 0 {
        assert(a =~= store);
        assert(c =~= Seq::<Entry>::empty());
        assert(store.push((key, value)) =~= a + seq![(key, value)] + c);
    } else {
        assert(i < store.len()) by {
            if i == store.len() {
                assert(store.take(i) =~= store);
            }
        }
        let t = store.take(i);
        let one = seq![store[i]];
        let rest = store.skip(i + 1);
        assert(store =~= t + one + rest);
        lemma_concat(t + one, rest, key);
        lemma_concat(t, one, key);
        lemma_key_free(t, key);
        assert(all_key(one, key));
        lemma_all_key(one, key);
        lemma_key_free(rest, key);
        assert(w =~= t + rest);
        assert(a =~= t);
        assert(c =~= rest);
        assert(store.update(i, (key, value)) =~= a + seq![(key, value)] + c);
    }
}

/// The file after the writes `replace` plans.
proof fn lemma_replace_shape(store: Seq<Entry>, key: Seq<char>, patterns: Seq<Seq<char>>)
    requires
        patterns.len() > 0,
    ensures
        ({
            let w = without_key(store, key);
            let i = first_key_index(store, key) as int;
            apply_ordered_all(store, replace_edits(key, values_in(store, key), patterns)->0) == Some(
                w.take(i) + entries_of(key, patterns) + w.skip(i),
            )
        }),
{
    let w = without_key(store, key);
    let i = first_key_index(store, key) as int;
    let a = w.take(i);
    let c = w.skip(i);
    let block = entries_of(key, patterns);
    let existing = values_in(store, key);
    if existing.len() <= 1 && patterns.len() == 1 {
        let es = seq![ConfigEdit::SetValue { key, value: patterns[0] }];
        assert(replace_edits(key, existing, patterns)->0 == es);
        assert(es.drop_first() =~= Seq::<ConfigEdit>::empty());
        assert(block =~= seq![(key, patterns[0])]);
        lemma_set_value_shape(store, key, patterns[0]);
        assert(apply_ordered_all(a + block + c, es.drop_first()) == Some(a + block + c));
    } else {
        lemma_split_at_first(store, key);
        let rest = patterns.drop_first();
        let es = seq![ConfigEdit::ReplaceAll { key, value: patterns[0] }] + add_all(key, rest);
        assert(replace_edits(key, existing, patterns)->0 == es);
        assert(es[0] == ConfigEdit::ReplaceAll { key, value: patterns[0] });
        assert(es.drop_first() =~= add_all(key, rest));
        let b = seq![(key, patterns[0])];
        assert(all_key(b, key));
        assert(insert_at(w, i, (key, patterns[0])) =~= a + b + c);
        lemma_adds(a, b, c, key, rest);
        assert(b + entries_of(key, rest) =~= block);
    }
}

/// Replacing a category's patterns (the writes `replace` plans from the
/// values the key holds) leaves exactly the new patterns, in order, as one
/// block of entries where the key's first entry stood (at the end for a new
/// category); every other entry keeps its place and order - so the
/// category keeps its position among the others, the order they are
/// enumerated and routed in.
pub proof fn law_replace_keeps_position(store: Seq<Entry>, key: Seq<char>, patterns: Seq<Seq<char>>)
    requires
        patterns.len() > 0,
    ensures
        ({
            let w = without_key(store, key);
            let i = first_key_index(store, key) as int;
            let after = apply_ordered_all(store, replace_edits(key, values_in(store, key), patterns)->0);
            &&& after == Some(w.take(i) + entries_of(key, patterns) + w.skip(i))
            &&& values_in(after->0, key) == patterns
            &&& without_key(after->0, key) == w
            &&& first_key_index(after->0, key) == i
        }),
{
    let w = without_key(store, key);
    let i = first_key_index(store, key) as int;
    lemma_split_at_first(store, key);
    lemma_replace_shape(store, key, patterns);
    lemma_entries_of(key, patterns);
    lemma_sandwich(w.take(i), entries_of(key, patterns), w.skip(i), key);
}

} // verus!
