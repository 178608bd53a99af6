//! String-keyed tables: lists of entries in the order of their keys.
use vstd::prelude::*;

use crate::text;

verus! {

/// The entries of a table with their keys as sequences of characters.
pub open spec fn rows<V>(t: Seq<(String, V)>) -> Seq<(Seq<char>, V)> {
    Seq::new(t.len(), |i: int| (t[i].0@, t[i].1))
}

/// The value under a key.
pub open spec fn lookup<V>(t: Seq<(Seq<char>, V)>, k: Seq<char>) -> Option<V>
    decreases t.len(),
{
    if t.len() == 0 {
        None
    } else if t[0].0 == k {
        Some(t[0].1)
    } else {
        lookup(t.skip(1), k)
    }
}

/// The table with the value under the key, in its place by the order of keys.
pub open spec fn inserted<V>(t: Seq<(Seq<char>, V)>, k: Seq<char>, v: V) -> Seq<(Seq<char>, V)>
    decreases t.len(),
{
    if t.len() == 0 {
        seq![(k, v)]
    } else if t[0].0 == k {
        seq![(k, v)] + t.skip(1)
    } else if text::precedes(k, t[0].0) {
        seq![(k, v)] + t
    } else {
        seq![t[0]] + inserted(t.skip(1), k, v)
    }
}

/// The table without the entry of the key.
pub open spec fn removed<V>(t: Seq<(Seq<char>, V)>, k: Seq<char>) -> Seq<(Seq<char>, V)>
    decreases t.len(),
{
    if t.len() == 0 {
        t
    } else if t[0].0 == k {
        t.skip(1)
    } else {
        seq![t[0]] + removed(t.skip(1), k)
    }
}

/// Keys ascend, and so none occurs twice.
pub open spec fn sorted<V>(t: Seq<(Seq<char>, V)>) -> bool {
    forall|i: int, j: int|
        #![trigger t[i], t[j]]
        0 <= i < j < t.len() ==> text::precedes(t[i].0, t[j].0)
}

pub fn get<'a, V>(t: &'a Vec<(String, V)>, k: &str) -> (r: Option<&'a V>)
    ensures
        r is Some == lookup(rows(t@), k@) is Some,
        r matches Some(v) ==> lookup(rows(t@), k@) == Some(*v),
{
    let mut i: usize = 0;
    assert(rows(t@).skip(0) =~= rows(t@));
    while i < t.len()
        invariant
            i <= t@.len(),
            lookup(rows(t@), k@) == lookup(rows(t@).skip(i as int), k@),
        decreases t@.len() - i,
    {
        if text::same(t[i].0.as_str(), k) {
            return Some(&t[i].1);
        }
        assert(rows(t@).skip(i as int).skip(1) =~= rows(t@).skip(i + 1));
        i += 1;
    }
    None
}

pub fn contains_key<V>(t: &Vec<(String, V)>, k: &str) -> (r: bool)
    ensures
        r == (lookup(rows(t@), k@) is Some),
{
    match get(t, k) {
        Some(_) => true,
        None => false,
    }
}

pub fn insert<V>(t: &mut Vec<(String, V)>, k: String, v: V)
    ensures
        rows(final(t)@) == inserted(rows(old(t)@), k@, v),
{
    let ghost r = rows(t@);
    let mut i: usize = 0;
    assert(r.skip(0) =~= r);
    assert(r.take(0) + inserted(r.skip(0), k@, v) =~= inserted(r, k@, v));
    while i < t.len()
        invariant
            i <= t@.len(),
            r == rows(t@),
            t@ == old(t)@,
            r.take(i as int) + inserted(r.skip(i as int), k@, v) == inserted(r, k@, v),
        decreases t@.len() - i,
    {
        assert(r.skip(i as int).skip(1) =~= r.skip(i + 1));
        assert(r.skip(i as int)[0] == r[i as int]);
        if text::same(t[i].0.as_str(), k.as_str()) {
            let ghost kv = k@;
            t.set(i, (k, v));
            assert(rows(t@) =~= r.take(i as int) + (seq![(kv, v)] + r.skip(i + 1)));
            return;
        }
        if text::before(k.as_str(), t[i].0.as_str()) {
            let ghost kv = k@;
            t.insert(i, (k, v));
            assert(rows(t@) =~= r.take(i as int) + (seq![(kv, v)] + r.skip(i as int)));
            return;
        }
        assert(r.take(i as int) + (seq![r[i as int]] + inserted(r.skip(i + 1), k@, v)) =~= r.take(
            i + 1,
        ) + inserted(r.skip(i + 1), k@, v));
        i += 1;
    }
    let ghost kv = k@;
    t.push((k, v));
    assert(rows(t@) =~= r.take(i as int) + seq![(kv, v)]);
}

pub fn remove<V>(t: &mut Vec<(String, V)>, k: &str) -> (r: Option<V>)
    ensures
        rows(final(t)@) == removed(rows(old(t)@), k@),
        r == lookup(rows(old(t)@), k@),
{
    let ghost r = rows(t@);
    let mut i: usize = 0;
    assert(r.skip(0) =~= r);
    assert(r.take(0) + removed(r.skip(0), k@) =~= removed(r, k@));
    while i < t.len()
        invariant
            i <= t@.len(),
            r == rows(t@),
            t@ == old(t)@,
            r.take(i as int) + removed(r.skip(i as int), k@) == removed(r, k@),
            lookup(r, k@) == lookup(r.skip(i as int), k@),
        decreases t@.len() - i,
    {
        assert(r.skip(i as int).skip(1) =~= r.skip(i + 1));
        assert(r.skip(i as int)[0] == r[i as int]);
        if text::same(t[i].0.as_str(), k) {
            let (_, v) = t.remove(i);
            assert(rows(t@) =~= r.take(i as int) + r.skip(i + 1));
            return Some(v);
        }
        assert(r.take(i as int) + (seq![r[i as int]] + removed(r.skip(i + 1), k@)) =~= r.take(i + 1)
            + removed(r.skip(i + 1), k@));
        i += 1;
    }
    assert(r.take(i as int) + removed(r.skip(i as int), k@) =~= r);
    None
}

/// An insertion changes what is under its own key and nothing else.
pub proof fn lemma_lookup_inserted<V>(t: Seq<(Seq<char>, V)>, k: Seq<char>, v: V, other: Seq<char>)
    ensures
        lookup(inserted(t, k, v), k) == Some(v),
        other != k ==> lookup(inserted(t, k, v), other) == lookup(t, other),
    decreases t.len(),
{
    let r = inserted(t, k, v);
    if t.len() == 0 {
        assert(r.skip(1) =~= t);
    } else if t[0].0 == k {
        assert(r.skip(1) =~= t.skip(1));
    } else if text::precedes(k, t[0].0) {
        assert(r.skip(1) =~= t);
    } else {
        lemma_lookup_inserted(t.skip(1), k, v, other);
        assert(r.skip(1) =~= inserted(t.skip(1), k, v));
    }
}

/// A removal leaves what is under the other keys.
pub proof fn lemma_lookup_removed<V>(t: Seq<(Seq<char>, V)>, k: Seq<char>, other: Seq<char>)
    ensures
        other != k ==> lookup(removed(t, k), other) == lookup(t, other),
        sorted(t) ==> lookup(removed(t, k), k) is None,
    decreases t.len(),
{
    if t.len() > 0 {
        let r = removed(t, k);
        if t[0].0 == k {
            if sorted(t) {
                lemma_lookup_after(t, 1, k);
            }
        } else {
            assert(r.skip(1) =~= removed(t.skip(1), k));
            lemma_lookup_removed(t.skip(1), k, other);
        }
    }
}

proof fn lemma_lookup_after<V>(t: Seq<(Seq<char>, V)>, i: int, k: Seq<char>)
    requires
        sorted(t),
        1 <= i <= t.len(),
        t[0].0 == k,
    ensures
        lookup(t.skip(i), k) is None,
    decreases t.len() - i,
{
    if i < t.len() {
        text::lemma_precedes_total(t[0].0, t[i].0);
        assert(t.skip(i)[0] == t[i]);
        assert(t.skip(i).skip(1) =~= t.skip(i + 1));
        lemma_lookup_after(t, i + 1, k);
    }
}

/// Insertion and removal keep the keys in order.
pub proof fn lemma_sorted<V>(t: Seq<(Seq<char>, V)>, k: Seq<char>, v: V)
    requires
        sorted(t),
    ensures
        sorted(inserted(t, k, v)),
        sorted(removed(t, k)),
        forall|i: int| 0 <= i < inserted(t, k, v).len() ==> {
            ||| #[trigger] inserted(t, k, v)[i] == (k, v)
            ||| t.contains(inserted(t, k, v)[i])
        },
        forall|i: int| 0 <= i < removed(t, k).len() ==> t.contains(#[trigger] removed(t, k)[i]),
    decreases t.len(),
{
    let r = inserted(t, k, v);
    let d = removed(t, k);
    if t.len() > 0 {
        let rest = t.skip(1);
        assert forall|i: int, j: int|
            #![trigger rest[i], rest[j]]
            0 <= i < j < rest.len() implies text::precedes(rest[i].0, rest[j].0) by {
            assert(rest[i] == t[i + 1] && rest[j] == t[j + 1]);
        }
        lemma_sorted(rest, k, v);
        text::lemma_precedes_total(k, t[0].0);
        assert forall|x: (Seq<char>, V)| #[trigger] rest.contains(x) implies t.contains(x)
            && text::precedes(t[0].0, x.0) by {
            let i = choose|i: int| 0 <= i < rest.len() && rest[i] == x;
            assert(t[i + 1] == x);
        }
        assert forall|i: int, j: int|
            #![trigger r[i], r[j]]
            0 <= i < j < r.len() implies text::precedes(r[i].0, r[j].0) by {
            if t[0].0 == k {
                assert(r[j] == rest[j - 1]);
                assert(rest.contains(rest[j - 1]));
                if i > 0 {
                    assert(r[i] == rest[i - 1]);
                }
            } else if text::precedes(k, t[0].0) {
                assert(r[j] == t[j - 1]);
                if i > 0 {
                    assert(r[i] == t[i - 1]);
                } else if j > 1 {
                    assert(text::precedes(t[0].0, t[j - 1].0));
                    text::lemma_precedes_transitive(k, t[0].0, t[j - 1].0);
                }
            } else {
                let q = inserted(rest, k, v);
                assert(r[j] == q[j - 1]);
                if i > 0 {
                    assert(r[i] == q[i - 1]);
                } else if q[j - 1] != (k, v) {
                    assert(rest.contains(q[j - 1]));
                }
            }
        }
        assert forall|i: int| 0 <= i < r.len() implies {
            ||| #[trigger] r[i] == (k, v)
            ||| t.contains(r[i])
        } by {
            if t[0].0 == k {
                if i > 0 {
                    assert(r[i] == t[i]);
                }
            } else if text::precedes(k, t[0].0) {
                if i > 0 {
                    assert(r[i] == t[i - 1]);
                }
            } else if i == 0 {
                assert(r[0] == t[0]);
            } else {
                assert(r[i] == inserted(rest, k, v)[i - 1]);
            }
        }
        assert forall|i: int, j: int|
            #![trigger d[i], d[j]]
            0 <= i < j < d.len() implies text::precedes(d[i].0, d[j].0) by {
            if t[0].0 == k {
                assert(d[i] == t[i + 1] && d[j] == t[j + 1]);
            } else {
                let q = removed(rest, k);
                assert(d[j] == q[j - 1]);
                if i > 0 {
                    assert(d[i] == q[i - 1]);
                } else {
                    assert(rest.contains(q[j - 1]));
                }
            }
        }
        assert forall|i: int| 0 <= i < d.len() implies t.contains(#[trigger] d[i]) by {
            if t[0].0 == k {
                assert(d[i] == t[i + 1]);
            } else if i == 0 {
                assert(d[0] == t[0]);
            } else {
                assert(d[i] == removed(rest, k)[i - 1]);
            }
        }
    }
}

/// A table of texts.
pub open spec fn text_rows(t: Seq<(String, String)>) -> Seq<(Seq<char>, Seq<char>)> {
    Seq::new(t.len(), |i: int| (t[i].0@, t[i].1@))
}

/// The texts of a table's values.
pub open spec fn value_texts(t: Seq<(Seq<char>, String)>) -> Seq<(Seq<char>, Seq<char>)> {
    Seq::new(t.len(), |i: int| (t[i].0, t[i].1@))
}

proof fn lemma_inserted_texts(t: Seq<(Seq<char>, String)>, k: Seq<char>, v: String)
    ensures
        value_texts(inserted(t, k, v)) == inserted(value_texts(t), k, v@),
    decreases t.len(),
{
    let x = value_texts(t);
    let r = inserted(t, k, v);
    if t.len() > 0 {
        assert(x.skip(1) =~= value_texts(t.skip(1)));
        if t[0].0 == k || text::precedes(k, t[0].0) {
            assert(value_texts(r) =~= inserted(x, k, v@));
        } else {
            lemma_inserted_texts(t.skip(1), k, v);
            assert(value_texts(r) =~= seq![x[0]] + value_texts(inserted(t.skip(1), k, v)));
        }
    } else {
        assert(value_texts(r) =~= inserted(x, k, v@));
    }
}

proof fn lemma_removed_texts(t: Seq<(Seq<char>, String)>, k: Seq<char>)
    ensures
        value_texts(removed(t, k)) == removed(value_texts(t), k),
    decreases t.len(),
{
    let x = value_texts(t);
    let r = removed(t, k);
    if t.len() > 0 {
        assert(x.skip(1) =~= value_texts(t.skip(1)));
        if t[0].0 != k {
            lemma_removed_texts(t.skip(1), k);
            assert(value_texts(r) =~= seq![x[0]] + value_texts(removed(t.skip(1), k)));
        }
    } else {
        assert(value_texts(r) =~= x);
    }
}

proof fn lemma_lookup_texts(t: Seq<(Seq<char>, String)>, k: Seq<char>)
    ensures
        lookup(value_texts(t), k) == match lookup(t, k) {
            Some(s) => Some(s@),
            None => None,
        },
    decreases t.len(),
{
    if t.len() > 0 {
        assert(value_texts(t).skip(1) =~= value_texts(t.skip(1)));
        lemma_lookup_texts(t.skip(1), k);
    }
}

/// Put a text into a table of texts.
pub fn insert_text(t: &mut Vec<(String, String)>, k: &str, v: &str)
    ensures
        text_rows(final(t)@) == inserted(text_rows(old(t)@), k@, v@),
{
    let value: String = v.to_owned();
    proof {
        lemma_inserted_texts(rows(t@), k@, value);
    }
    assert(value_texts(rows(t@)) =~= text_rows(t@));
    insert(t, k.to_owned(), value);
    assert(value_texts(rows(t@)) =~= text_rows(t@));
}

/// Take a text out of a table of texts.
pub fn remove_text(t: &mut Vec<(String, String)>, k: &str) -> (r: Option<String>)
    ensures
        text_rows(final(t)@) == removed(text_rows(old(t)@), k@),
        r is Some == lookup(text_rows(old(t)@), k@) is Some,
        r matches Some(s) ==> lookup(text_rows(old(t)@), k@) == Some(s@),
{
    proof {
        lemma_removed_texts(rows(t@), k@);
        lemma_lookup_texts(rows(t@), k@);
    }
    assert(value_texts(rows(t@)) =~= text_rows(t@));
    let r: Option<String> = remove(t, k);
    assert(value_texts(rows(t@)) =~= text_rows(t@));
    r
}

/// The text under a key.
pub fn get_text<'a>(t: &'a Vec<(String, String)>, k: &str) -> (r: Option<&'a str>)
    ensures
        crate::util::opt_view(r) == lookup(text_rows(t@), k@),
{
    proof {
        lemma_lookup_texts(rows(t@), k@);
    }
    assert(value_texts(rows(t@)) =~= text_rows(t@));
    match get(t, k) {
        Some(s) => Some(s.as_str()),
        None => None,
    }
}

} // verus!
