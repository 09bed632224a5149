//! The `indexmap::IndexMap`s that the library holds: insertion-ordered maps
//! whose contents it reads as sequences of `(key, value)` pairs.
use indexmap::IndexMap;
use vstd::prelude::*;
use crate::config::ConfigFile;
use crate::entries::{has_key, index_of, keys_unique, lookup, put};

verus! {

#[verifier::external_type_specification]
#[verifier::external_body]
#[verifier::reject_recursive_types(K)]
#[verifier::reject_recursive_types(V)]
#[verifier::reject_recursive_types(S)]
pub struct ExIndexMap<K, V, S>(IndexMap<K, V, S>);

/// What an `IndexMap<String, String>` holds: its pairs, in their order.
pub uninterp spec fn map_entries(m: IndexMap<String, String>) -> Seq<(Seq<char>, Seq<char>)>;

/// Relies on `IndexMap::new`: a map with no pairs.
#[verifier::external_body]
pub(crate) fn map_new() -> (r: IndexMap<String, String>)
    ensures
        map_entries(r) == Seq::<(Seq<char>, Seq<char>)>::empty(),
{
    IndexMap::new()
}

/// Relies on `IndexMap::insert`: a key already present keeps its place and
/// takes the new value; a new key goes last. Keys stay unique.
#[verifier::external_body]
pub(crate) fn map_insert(m: &mut IndexMap<String, String>, k: String, v: String)
    ensures
        map_entries(*final(m)) == put(map_entries(*old(m)), k@, v@),
        keys_unique(map_entries(*final(m))),
{
    m.insert(k, v);
}

/// Relies on `IndexMap::len`: the number of pairs.
#[verifier::external_body]
pub(crate) fn map_len(m: &IndexMap<String, String>) -> (r: usize)
    ensures
        r == map_entries(*m).len(),
{
    m.len()
}

/// Relies on `IndexMap::get_index`: the pair at position `i`, if any.
#[verifier::external_body]
pub(crate) fn map_get_index(m: &IndexMap<String, String>, i: usize) -> (r: Option<(String, String)>)
    ensures
        r is Some <==> i < map_entries(*m).len(),
        r matches Some(p) ==> (p.0@, p.1@) == map_entries(*m)[i as int],
{
    m.get_index(i).map(|(k, v)| (k.clone(), v.clone()))
}

/// Relies on `IndexMap::get`: the value stored under `k`, if any.
#[verifier::external_body]
pub(crate) fn map_get(m: &IndexMap<String, String>, k: &String) -> (r: Option<String>)
    ensures
        r is Some <==> has_key(map_entries(*m), k@),
        r matches Some(v) ==> lookup(map_entries(*m), k@) == Some(v@),
{
    m.get(k).cloned()
}

/// What an `IndexMap<String, IndexMap<String, String>>` holds: its keys
/// with the pairs of their inner maps, in order.
pub uninterp spec fn nested_entries(
    m: IndexMap<String, IndexMap<String, String>>,
) -> Seq<(Seq<char>, Seq<(Seq<char>, Seq<char>)>)>;

/// Relies on `IndexMap::new`: a map with no keys.
#[verifier::external_body]
pub(crate) fn nested_new() -> (r: IndexMap<String, IndexMap<String, String>>)
    ensures
        nested_entries(r) == Seq::<(Seq<char>, Seq<(Seq<char>, Seq<char>)>)>::empty(),
{
    IndexMap::new()
}

/// Relies on `IndexMap::insert`: a key already present keeps its place and
/// takes the new inner map; a new key goes last. Keys stay unique.
#[verifier::external_body]
pub(crate) fn nested_insert(
    m: &mut IndexMap<String, IndexMap<String, String>>,
    k: String,
    v: IndexMap<String, String>,
)
    ensures
        nested_entries(*final(m)) == put(nested_entries(*old(m)), k@, map_entries(v)),
        keys_unique(nested_entries(*final(m))),
{
    m.insert(k, v);
}

/// Relies on `IndexMap::get` and `IndexMap::clone`: a copy of the inner
/// map stored under `k`, if any.
#[verifier::external_body]
pub(crate) fn nested_get(
    m: &IndexMap<String, IndexMap<String, String>>,
    k: &String,
) -> (r: Option<IndexMap<String, String>>)
    ensures
        r is Some <==> has_key(nested_entries(*m), k@),
        r matches Some(v) ==> lookup(nested_entries(*m), k@) == Some(map_entries(v)),
{
    m.get(k).cloned()
}

/// Relies on `IndexMap::len`: the number of keys.
#[verifier::external_body]
pub(crate) fn nested_len(m: &IndexMap<String, IndexMap<String, String>>) -> (r: usize)
    ensures
        r == nested_entries(*m).len(),
{
    m.len()
}

/// Relies on `IndexMap::get_index` and `IndexMap::clone`: a copy of the
/// entry at position `i`, if any.
#[verifier::external_body]
pub(crate) fn nested_get_index(
    m: &IndexMap<String, IndexMap<String, String>>,
    i: usize,
) -> (r: Option<(String, IndexMap<String, String>)>)
    ensures
        r is Some <==> i < nested_entries(*m).len(),
        r matches Some(p) ==> (p.0@, map_entries(p.1)) == nested_entries(*m)[i as int],
{
    m.get_index(i).map(|(k, v)| (k.clone(), v.clone()))
}

/// Relies on `IndexMap::clone`: the same keys and inner maps in the same
/// order.
#[verifier::external_body]
pub(crate) fn nested_clone(
    m: &IndexMap<String, IndexMap<String, String>>,
) -> (r: IndexMap<String, IndexMap<String, String>>)
    ensures
        nested_entries(r) == nested_entries(*m),
{
    m.clone()
}

/// What an `IndexMap<String, ConfigFile>` holds: its paths with their
/// files, in order.
pub uninterp spec fn file_entries(m: IndexMap<String, ConfigFile>) -> Seq<(Seq<char>, ConfigFile)>;

/// Relies on `IndexMap::new`: a map with no files.
#[verifier::external_body]
pub(crate) fn files_new() -> (r: IndexMap<String, ConfigFile>)
    ensures
        file_entries(r) == Seq::<(Seq<char>, ConfigFile)>::empty(),
{
    IndexMap::new()
}

/// Relies on `IndexMap::insert`: a path already present keeps its place and
/// takes the new file; a new path goes last. Paths stay unique.
#[verifier::external_body]
pub(crate) fn files_insert(m: &mut IndexMap<String, ConfigFile>, k: String, v: ConfigFile)
    ensures
        file_entries(*final(m)) == put(file_entries(*old(m)), k@, v),
        keys_unique(file_entries(*final(m))),
{
    m.insert(k, v);
}

/// Relies on `IndexMap::len`: the number of files.
#[verifier::external_body]
pub(crate) fn files_len(m: &IndexMap<String, ConfigFile>) -> (r: usize)
    ensures
        r == file_entries(*m).len(),
{
    m.len()
}

/// Relies on `IndexMap::get_index`: the file at position `i`, if any.
#[verifier::external_body]
pub(crate) fn files_value(m: &IndexMap<String, ConfigFile>, i: usize) -> (r: Option<&ConfigFile>)
    ensures
        r is Some <==> i < file_entries(*m).len(),
        r matches Some(f) ==> *f == file_entries(*m)[i as int].1,
{
    m.get_index(i).map(|(_, f)| f)
}

/// Relies on `IndexMap::contains_key`: whether a file is stored under `k`.
#[verifier::external_body]
pub(crate) fn files_contains(m: &IndexMap<String, ConfigFile>, k: &String) -> (r: bool)
    ensures
        r == has_key(file_entries(*m), k@),
{
    m.contains_key(k)
}

/// Relies on `IndexMap::shift_remove`: takes out the file stored under `k`,
/// if any, the files after it keeping their order.
#[verifier::external_body]
pub(crate) fn files_shift_remove(m: &mut IndexMap<String, ConfigFile>, k: &String) -> (r: Option<ConfigFile>)
    ensures
        r is Some <==> has_key(file_entries(*old(m)), k@),
        r matches Some(f) ==> lookup(file_entries(*old(m)), k@) == Some(f),
        r is Some ==> file_entries(*final(m)) == file_entries(*old(m)).remove(
            index_of(file_entries(*old(m)), k@),
        ),
        r is None ==> file_entries(*final(m)) == file_entries(*old(m)),
{
    m.shift_remove(k)
}

} // verus!
