//! Operations on insertion-ordered string maps built from the single calls
//! of `ordmap`.
use indexmap::IndexMap;
use vstd::prelude::*;
use crate::entries::{keys_unique, put_all};
use crate::ordmap::{map_get_index, map_insert, map_len, map_entries};

verus! {

/// Insert every pair of `pairs` into `m`, in order.
pub fn put_pairs(m: &mut IndexMap<String, String>, pairs: &IndexMap<String, String>)
    requires
        keys_unique(map_entries(*old(m))),
    ensures
        keys_unique(map_entries(*final(m))),
        map_entries(*final(m)) == put_all(map_entries(*old(m)), map_entries(*pairs)),
{
    let ghost t = map_entries(*pairs);
    let n = map_len(pairs);
    let mut i: usize = 0;
    while i < n
        invariant
            0 <= i <= n,
            n == t.len(),
            t == map_entries(*pairs),
            keys_unique(map_entries(*m)),
            map_entries(*m) == put_all(map_entries(*old(m)), t.subrange(0, i as int)),
        decreases n - i,
    {
        assert(t.subrange(0, i + 1).drop_last() =~= t.subrange(0, i as int));
        assert(t.subrange(0, i + 1).last() == t[i as int]);
        match map_get_index(pairs, i) {
            Some((k, v)) => map_insert(m, k, v),
            None => {},
        }
        i += 1;
    }
    assert(t.subrange(0, i as int) =~= t);
}

} // verus!
