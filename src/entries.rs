//! Mathematical model of an insertion-ordered map keyed by strings: a
//! sequence of `(key, value)` pairs. Inserting an existing key replaces its
//! value in place; inserting a new key appends it.
use vstd::prelude::*;

verus! {

/// No key occurs twice.
pub open spec fn keys_unique<V>(s: Seq<(Seq<char>, V)>) -> bool {
    forall|i: int, j: int|
        0 <= i < s.len() && 0 <= j < s.len() && i != j ==> #[trigger] s[i].0 != #[trigger] s[j].0
}

pub open spec fn has_key<V>(s: Seq<(Seq<char>, V)>, k: Seq<char>) -> bool {
    exists|i: int| 0 <= i < s.len() && #[trigger] s[i].0 == k
}

pub open spec fn index_of<V>(s: Seq<(Seq<char>, V)>, k: Seq<char>) -> int {
    choose|i: int| 0 <= i < s.len() && #[trigger] s[i].0 == k
}

/// The value stored under `k`, if any.
pub open spec fn lookup<V>(s: Seq<(Seq<char>, V)>, k: Seq<char>) -> Option<V> {
    if has_key(s, k) {
        Some(s[index_of(s, k)].1)
    } else {
        None
    }
}

/// Insert `k -> v`: replace in place when `k` is present, else append.
pub open spec fn put<V>(s: Seq<(Seq<char>, V)>, k: Seq<char>, v: V) -> Seq<(Seq<char>, V)> {
    if has_key(s, k) {
        s.update(index_of(s, k), (k, v))
    } else {
        s.push((k, v))
    }
}

/// Insert every pair of `t` into `s`, first to last.
pub open spec fn put_all<V>(s: Seq<(Seq<char>, V)>, t: Seq<(Seq<char>, V)>) -> Seq<(Seq<char>, V)>
    decreases t.len(),
{
    if t.len() == 0 {
        s
    } else {
        put(put_all(s, t.drop_last()), t.last().0, t.last().1)
    }
}

pub proof fn lemma_lookup_at<V>(s: Seq<(Seq<char>, V)>, i: int)
    requires
        keys_unique(s),
        0 <= i < s.len(),
    ensures
        has_key(s, s[i].0),
        index_of(s, s[i].0) == i,
        lookup(s, s[i].0) == Some(s[i].1),
{
    assert(has_key(s, s[i].0));
}

/// Removing the pair of `k` keeps keys unique and every other pair.
pub proof fn lemma_remove_key<V>(s: Seq<(Seq<char>, V)>, k: Seq<char>)
    requires
        keys_unique(s),
        has_key(s, k),
    ensures
        keys_unique(s.remove(index_of(s, k))),
        !has_key(s.remove(index_of(s, k)), k),
        forall|k2: Seq<char>|
            k2 != k ==> #[trigger] has_key(s.remove(index_of(s, k)), k2) == has_key(s, k2),
        forall|k2: Seq<char>|
            k2 != k ==> #[trigger] lookup(s.remove(index_of(s, k)), k2) == lookup(s, k2),
{
    let x = index_of(s, k);
    let r = s.remove(x);
    assert forall|a: int| 0 <= a < r.len() implies #[trigger] r[a] == s[if a < x { a } else { a + 1 }] by {}
    assert forall|k2: Seq<char>| k2 != k implies #[trigger] has_key(r, k2) == has_key(s, k2) by {
        if has_key(s, k2) {
            let i = index_of(s, k2);
            let a = if i < x { i } else { i - 1 };
            assert(r[a].0 == k2);
        }
        if has_key(r, k2) {
            let a = index_of(r, k2);
            let i = if a < x { a } else { a + 1 };
            assert(s[i].0 == k2);
        }
    }
    assert forall|k2: Seq<char>| k2 != k implies #[trigger] lookup(r, k2) == lookup(s, k2) by {
        if has_key(s, k2) {
            let a = index_of(r, k2);
            let i2 = if a < x { a } else { a + 1 };
            assert(s[i2].0 == k2);
            lemma_lookup_at(s, i2);
        }
    }
    if has_key(r, k) {
        let a = index_of(r, k);
        let i = if a < x { a } else { a + 1 };
        assert(s[i].0 == k);
    }
}

/// Inserting keeps keys unique and changes the value of `k` alone.
pub proof fn lemma_put<V>(s: Seq<(Seq<char>, V)>, k: Seq<char>, v: V)
    requires
        keys_unique(s),
    ensures
        keys_unique(put(s, k, v)),
        forall|k2: Seq<char>| #[trigger]
            lookup(put(s, k, v), k2) == if k2 == k {
                Some(v)
            } else {
                lookup(s, k2)
            },
        forall|k2: Seq<char>| #[trigger] has_key(put(s, k, v), k2) <==> (has_key(s, k2) || k2 == k),
{
    let p = put(s, k, v);
    if has_key(s, k) {
        let i = index_of(s, k);
        assert(p.len() == s.len());
        assert forall|a: int, b: int|
            0 <= a < p.len() && 0 <= b < p.len() && a != b implies #[trigger] p[a].0
            != #[trigger] p[b].0 by {
            assert(s[i].0 == k);
        }
    } else {
        assert forall|a: int, b: int|
            0 <= a < p.len() && 0 <= b < p.len() && a != b implies #[trigger] p[a].0
            != #[trigger] p[b].0 by {
            if a == s.len() {
                assert(s[b].0 == p[b].0);
            } else if b == s.len() {
                assert(s[a].0 == p[a].0);
            } else {
                assert(s[a].0 == p[a].0 && s[b].0 == p[b].0);
            }
        }
    }
    assert forall|k2: Seq<char>| #[trigger] has_key(p, k2) <==> (has_key(s, k2) || k2 == k) by {
        if has_key(s, k) {
            let i = index_of(s, k);
            if has_key(p, k2) {
                let j = index_of(p, k2);
                if j != i {
                    assert(s[j].0 == k2);
                }
            }
            if has_key(s, k2) {
                let j = index_of(s, k2);
                if j == i {
                    assert(p[i].0 == k2);
                } else {
                    assert(p[j].0 == k2);
                }
            }
            if k2 == k {
                assert(p[i].0 == k2);
            }
        } else {
            if has_key(p, k2) {
                let j = index_of(p, k2);
                if j < s.len() {
                    assert(s[j].0 == k2);
                }
            }
            if has_key(s, k2) {
                let j = index_of(s, k2);
                assert(p[j].0 == k2);
            }
            if k2 == k {
                assert(p[s.len() as int].0 == k2);
            }
        }
    }
    assert forall|k2: Seq<char>| #[trigger]
        lookup(p, k2) == if k2 == k {
            Some(v)
        } else {
            lookup(s, k2)
        } by {
        if has_key(p, k2) {
            let j = index_of(p, k2);
            lemma_lookup_at(p, j);
            if k2 != k {
                assert(has_key(s, k2));
                lemma_lookup_at(s, j);
            } else if has_key(s, k) {
                assert(p[index_of(s, k)].0 == k);
            } else {
                assert(p[s.len() as int].0 == k);
            }
        }
    }
}

/// Inserting a sequence with unique keys: each of its keys ends up with its
/// value there, every other key keeps its value.
pub proof fn lemma_put_all<V>(s: Seq<(Seq<char>, V)>, t: Seq<(Seq<char>, V)>)
    requires
        keys_unique(s),
        keys_unique(t),
    ensures
        keys_unique(put_all(s, t)),
        forall|k: Seq<char>| #[trigger]
            lookup(put_all(s, t), k) == if has_key(t, k) {
                lookup(t, k)
            } else {
                lookup(s, k)
            },
    decreases t.len(),
{
    if t.len() > 0 {
        let d = t.drop_last();
        assert(keys_unique(d)) by {
            assert forall|i: int, j: int|
                0 <= i < d.len() && 0 <= j < d.len() && i != j implies #[trigger] d[i].0
                != #[trigger] d[j].0 by {
                assert(d[i] == t[i] && d[j] == t[j]);
            }
        }
        lemma_put_all(s, d);
        let last = t.last();
        lemma_put(put_all(s, d), last.0, last.1);
        assert forall|k: Seq<char>| #[trigger]
            lookup(put_all(s, t), k) == if has_key(t, k) {
                lookup(t, k)
            } else {
                lookup(s, k)
            } by {
            lemma_lookup_at(t, t.len() - 1);
            if k != last.0 {
                if has_key(t, k) {
                    let j = index_of(t, k);
                    assert(j != t.len() - 1);
                    assert(d[j] == t[j]);
                    lemma_lookup_at(d, j);
                    lemma_lookup_at(t, j);
                } else if has_key(d, k) {
                    let j = index_of(d, k);
                    assert(t[j] == d[j]);
                }
            }
        }
    }
}

} // verus!
