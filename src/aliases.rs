//! Alias resolution: aliases declared by plugins, then by config files, then
//! by the settings, each later source overriding the same (tool, alias).
use indexmap::IndexMap;
use vstd::prelude::*;
use crate::config::{files_of, ConfigFile, ConfigFiles};
use crate::entries::{has_key, index_of, keys_unique, lemma_lookup_at, lemma_put, lookup, put};
use crate::ordmap::{
    files_len, files_value, map_entries, map_get_index, map_insert, map_len, map_new, nested_get, nested_get_index,
    nested_insert, nested_len, nested_new,
};
use crate::settings::{alias_table_view, AliasTable, Settings};

verus! {

/// Aliases as plain text: per tool, `(alias, version)` pairs.
pub type AliasView = Seq<(Seq<char>, Seq<(Seq<char>, Seq<char>)>)>;

/// Tools unique, and aliases unique within each tool.
pub open spec fn alias_wf(a: AliasView) -> bool {
    &&& keys_unique(a)
    &&& forall|i: int| 0 <= i < a.len() ==> keys_unique(#[trigger] a[i].1)
}

/// The aliases of `tool`, empty when it has none.
pub open spec fn inner_of(a: AliasView, tool: Seq<char>) -> Seq<(Seq<char>, Seq<char>)> {
    match lookup(a, tool) {
        Some(m) => m,
        None => Seq::empty(),
    }
}

/// The version that `alias` of `tool` stands for.
pub open spec fn alias_of(a: AliasView, tool: Seq<char>, alias: Seq<char>) -> Option<Seq<char>> {
    match lookup(a, tool) {
        Some(m) => lookup(m, alias),
        None => None,
    }
}

/// One alias of `tool` set.
pub open spec fn alias_put(a: AliasView, tool: Seq<char>, from: Seq<char>, to: Seq<char>) -> AliasView {
    put(a, tool, put(inner_of(a, tool), from, to))
}

/// Each of `pairs` set, in turn, as an alias of `tool`.
pub open spec fn alias_put_pairs(a: AliasView, tool: Seq<char>, pairs: Seq<(Seq<char>, Seq<char>)>) -> AliasView
    decreases pairs.len(),
{
    if pairs.len() == 0 {
        a
    } else {
        alias_put(alias_put_pairs(a, tool, pairs.drop_last()), tool, pairs.last().0, pairs.last().1)
    }
}

/// Every alias of `table` set over `a`, tool by tool.
pub open spec fn alias_merge(a: AliasView, table: AliasView) -> AliasView
    decreases table.len(),
{
    if table.len() == 0 {
        a
    } else {
        alias_put_pairs(alias_merge(a, table.drop_last()), table.last().0, table.last().1)
    }
}

/// What plugins declared, as plain text: a plugin whose aliases could not be
/// read has `None`.
pub type PluginAliasesView = Seq<(Seq<char>, Option<Seq<(Seq<char>, Seq<char>)>>)>;

pub open spec fn plugin_aliases_view(
    s: Seq<(String, Option<IndexMap<String, String>>)>,
) -> PluginAliasesView {
    s.map_values(|p: (String, Option<IndexMap<String, String>>)| (p.0@, match p.1 {
        Some(v) => Some(map_entries(v)),
        None => None,
    }))
}

/// The aliases of the plugins, in order; a plugin that failed adds none.
pub open spec fn plugin_stage(plugins: PluginAliasesView) -> AliasView
    decreases plugins.len(),
{
    if plugins.len() == 0 {
        Seq::empty()
    } else {
        let p = plugin_stage(plugins.drop_last());
        match plugins.last().1 {
            Some(pairs) => alias_put_pairs(p, plugins.last().0, pairs),
            None => p,
        }
    }
}

/// The aliases of the config files over `a`, in discovery order.
pub open spec fn files_stage(a: AliasView, files: Seq<ConfigFile>) -> AliasView
    decreases files.len(),
{
    if files.len() == 0 {
        a
    } else {
        alias_merge(files_stage(a, files.drop_last()), alias_table_view(files.last().aliases))
    }
}

/// All aliases: plugins, then config files, then the settings.
pub open spec fn resolved_aliases(
    settings: AliasView,
    plugins: PluginAliasesView,
    files: Seq<ConfigFile>,
) -> AliasView {
    alias_merge(files_stage(plugin_stage(plugins), files), settings)
}

pub proof fn lemma_alias_put(a: AliasView, tool: Seq<char>, from: Seq<char>, to: Seq<char>)
    requires
        alias_wf(a),
    ensures
        alias_wf(alias_put(a, tool, from, to)),
        forall|t: Seq<char>, f: Seq<char>| #[trigger]
            alias_of(alias_put(a, tool, from, to), t, f) == if t == tool && f == from {
                Some(to)
            } else {
                alias_of(a, t, f)
            },
{
    let inner = inner_of(a, tool);
    if has_key(a, tool) {
        lemma_lookup_at(a, index_of(a, tool));
    }
    lemma_put(inner, from, to);
    let ni = put(inner, from, to);
    lemma_put(a, tool, ni);
    let r = put(a, tool, ni);
    assert forall|i: int| 0 <= i < r.len() implies keys_unique(#[trigger] r[i].1) by {
        if has_key(a, tool) {
            if i != index_of(a, tool) {
                assert(r[i] == a[i]);
            }
        } else if i < a.len() {
            assert(r[i] == a[i]);
        }
    }
}

pub proof fn lemma_alias_put_pairs(a: AliasView, tool: Seq<char>, pairs: Seq<(Seq<char>, Seq<char>)>)
    requires
        alias_wf(a),
    ensures
        alias_wf(alias_put_pairs(a, tool, pairs)),
        keys_unique(pairs) ==> forall|t: Seq<char>, f: Seq<char>| #[trigger]
            alias_of(alias_put_pairs(a, tool, pairs), t, f) == if t == tool && has_key(pairs, f) {
                lookup(pairs, f)
            } else {
                alias_of(a, t, f)
            },
    decreases pairs.len(),
{
    if pairs.len() > 0 {
        let d = pairs.drop_last();
        lemma_alias_put_pairs(a, tool, d);
        let p = alias_put_pairs(a, tool, d);
        lemma_alias_put(p, tool, pairs.last().0, pairs.last().1);
        if keys_unique(pairs) {
            assert(keys_unique(d)) by {
                assert forall|i: int, j: int|
                    0 <= i < d.len() && 0 <= j < d.len() && i != j implies #[trigger] d[i].0
                    != #[trigger] d[j].0 by {
                    assert(d[i] == pairs[i] && d[j] == pairs[j]);
                }
            }
            assert forall|t: Seq<char>, f: Seq<char>| #[trigger]
                alias_of(alias_put_pairs(a, tool, pairs), t, f) == if t == tool && has_key(pairs, f) {
                    lookup(pairs, f)
                } else {
                    alias_of(a, t, f)
                } by {
                lemma_lookup_at(pairs, pairs.len() - 1);
                if f != pairs.last().0 {
                    if has_key(pairs, f) {
                        let j = index_of(pairs, f);
                        assert(d[j] == pairs[j]);
                        lemma_lookup_at(d, j);
                        lemma_lookup_at(pairs, j);
                    } else if has_key(d, f) {
                        let j = index_of(d, f);
                        assert(pairs[j] == d[j]);
                    }
                }
            }
        }
    }
}

pub proof fn lemma_alias_merge(a: AliasView, table: AliasView)
    requires
        alias_wf(a),
    ensures
        alias_wf(alias_merge(a, table)),
        alias_wf(table) ==> forall|t: Seq<char>, f: Seq<char>| #[trigger]
            alias_of(alias_merge(a, table), t, f) == if alias_of(table, t, f) is Some {
                alias_of(table, t, f)
            } else {
                alias_of(a, t, f)
            },
    decreases table.len(),
{
    if table.len() > 0 {
        let d = table.drop_last();
        lemma_alias_merge(a, d);
        let p = alias_merge(a, d);
        let last = table.last();
        lemma_alias_put_pairs(p, last.0, last.1);
        if alias_wf(table) {
            assert(alias_wf(d)) by {
                assert forall|i: int, j: int|
                    0 <= i < d.len() && 0 <= j < d.len() && i != j implies #[trigger] d[i].0
                    != #[trigger] d[j].0 by {
                    assert(d[i] == table[i] && d[j] == table[j]);
                }
                assert forall|i: int| 0 <= i < d.len() implies keys_unique(#[trigger] d[i].1) by {
                    assert(d[i] == table[i]);
                }
            }
            assert(keys_unique(table[table.len() - 1].1));
            assert forall|t: Seq<char>, f: Seq<char>| #[trigger]
                alias_of(alias_merge(a, table), t, f) == if alias_of(table, t, f) is Some {
                    alias_of(table, t, f)
                } else {
                    alias_of(a, t, f)
                } by {
                lemma_lookup_at(table, table.len() - 1);
                if t != last.0 {
                    if has_key(table, t) {
                        let j = index_of(table, t);
                        assert(d[j] == table[j]);
                        lemma_lookup_at(d, j);
                        lemma_lookup_at(table, j);
                    } else if has_key(d, t) {
                        let j = index_of(d, t);
                        assert(table[j] == d[j]);
                    }
                } else {
                    if has_key(d, t) {
                        let j = index_of(d, t);
                        assert(table[j] == d[j]);
                        assert(j == table.len() - 1);
                    }
                }
            }
        }
    }
}

pub proof fn lemma_plugin_stage_wf(plugins: PluginAliasesView)
    ensures
        alias_wf(plugin_stage(plugins)),
    decreases plugins.len(),
{
    if plugins.len() > 0 {
        lemma_plugin_stage_wf(plugins.drop_last());
        match plugins.last().1 {
            Some(pairs) => lemma_alias_put_pairs(plugin_stage(plugins.drop_last()), plugins.last().0, pairs),
            None => {},
        }
    }
}

pub proof fn lemma_files_stage_wf(a: AliasView, files: Seq<ConfigFile>)
    requires
        alias_wf(a),
    ensures
        alias_wf(files_stage(a, files)),
    decreases files.len(),
{
    if files.len() > 0 {
        lemma_files_stage_wf(a, files.drop_last());
        lemma_alias_merge(files_stage(a, files.drop_last()), alias_table_view(files.last().aliases));
    }
}

/// Precedence of the settings: an alias that the settings declare for a
/// tool resolves to the settings' version, whatever plugins and config files
/// declare for it.
pub proof fn lemma_settings_alias_wins(
    settings: AliasView,
    plugins: PluginAliasesView,
    files: Seq<ConfigFile>,
    tool: Seq<char>,
    alias: Seq<char>,
)
    requires
        alias_wf(settings),
        alias_of(settings, tool, alias) is Some,
    ensures
        alias_of(resolved_aliases(settings, plugins, files), tool, alias) == alias_of(settings, tool, alias),
{
    lemma_plugin_stage_wf(plugins);
    lemma_files_stage_wf(plugin_stage(plugins), files);
    lemma_alias_merge(files_stage(plugin_stage(plugins), files), settings);
}

/// Over the config files, an alias takes its version from the last file
/// that declares it.
pub proof fn lemma_files_stage_last(
    a: AliasView,
    files: Seq<ConfigFile>,
    tool: Seq<char>,
    alias: Seq<char>,
    i: int,
)
    requires
        alias_wf(a),
        0 <= i < files.len(),
        forall|j: int| 0 <= j < files.len() ==> alias_wf(alias_table_view((#[trigger] files[j]).aliases)),
        alias_of(alias_table_view(files[i].aliases), tool, alias) is Some,
        forall|j: int|
            i < j < files.len() ==> alias_of(alias_table_view((#[trigger] files[j]).aliases), tool, alias) is None,
    ensures
        alias_of(files_stage(a, files), tool, alias) == alias_of(alias_table_view(files[i].aliases), tool, alias),
    decreases files.len(),
{
    let d = files.drop_last();
    lemma_files_stage_wf(a, d);
    let last = files[files.len() - 1];
    assert(alias_wf(alias_table_view(last.aliases)));
    lemma_alias_merge(files_stage(a, d), alias_table_view(last.aliases));
    if i < files.len() - 1 {
        assert forall|j: int| 0 <= j < d.len() implies alias_wf(alias_table_view((#[trigger] d[j]).aliases)) by {
            assert(d[j] == files[j]);
        }
        assert forall|j: int| i < j < d.len() implies alias_of(alias_table_view((#[trigger] d[j]).aliases), tool, alias) is None by {
            assert(d[j] == files[j]);
        }
        assert(d[i] == files[i]);
        lemma_files_stage_last(a, d, tool, alias, i);
    }
}

/// Precedence of config files over plugins: an alias that the settings do
/// not declare takes its version from the last config file that declares
/// it, whatever the plugins declare.
pub proof fn lemma_config_file_alias_beats_plugin(
    settings: AliasView,
    plugins: PluginAliasesView,
    files: Seq<ConfigFile>,
    tool: Seq<char>,
    alias: Seq<char>,
    i: int,
)
    requires
        alias_wf(settings),
        alias_of(settings, tool, alias) is None,
        0 <= i < files.len(),
        forall|j: int| 0 <= j < files.len() ==> alias_wf(alias_table_view((#[trigger] files[j]).aliases)),
        alias_of(alias_table_view(files[i].aliases), tool, alias) is Some,
        forall|j: int|
            i < j < files.len() ==> alias_of(alias_table_view((#[trigger] files[j]).aliases), tool, alias) is None,
    ensures
        alias_of(resolved_aliases(settings, plugins, files), tool, alias) == alias_of(
            alias_table_view(files[i].aliases),
            tool,
            alias,
        ),
{
    lemma_plugin_stage_wf(plugins);
    lemma_files_stage_wf(plugin_stage(plugins), files);
    lemma_files_stage_last(plugin_stage(plugins), files, tool, alias, i);
    lemma_alias_merge(files_stage(plugin_stage(plugins), files), settings);
}

/// A plugin whose aliases could not be read changes nothing: the result is
/// the one without it.
pub proof fn lemma_failed_plugin_ignored(
    settings: AliasView,
    plugins: PluginAliasesView,
    files: Seq<ConfigFile>,
    i: int,
)
    requires
        0 <= i < plugins.len(),
        plugins[i].1 is None,
    ensures
        resolved_aliases(settings, plugins, files) == resolved_aliases(settings, plugins.remove(i), files),
{
    lemma_plugin_stage_remove(plugins, i);
}

pub proof fn lemma_plugin_stage_remove(plugins: PluginAliasesView, i: int)
    requires
        0 <= i < plugins.len(),
        plugins[i].1 is None,
    ensures
        plugin_stage(plugins) == plugin_stage(plugins.remove(i)),
    decreases plugins.len(),
{
    let d = plugins.drop_last();
    if i == plugins.len() - 1 {
        assert(plugins.remove(i) =~= d);
    } else {
        assert(d[i] == plugins[i]);
        lemma_plugin_stage_remove(d, i);
        let r = plugins.remove(i);
        assert(r.drop_last() =~= d.remove(i));
        assert(r.last() == plugins.last());
    }
}

/// Set alias `from` of `tool` to `to`.
pub fn alias_insert(a: &mut AliasTable, tool: &String, from: String, to: String)
    requires
        alias_wf(alias_table_view(*old(a))),
    ensures
        alias_wf(alias_table_view(*final(a))),
        alias_table_view(*final(a)) == alias_put(alias_table_view(*old(a)), tool@, from@, to@),
{
    let ghost s = alias_table_view(*a);
    proof {
        lemma_alias_put(s, tool@, from@, to@);
    }
    let mut inner = match nested_get(a, tool) {
        Some(m) => m,
        None => map_new(),
    };
    assert(map_entries(inner) == inner_of(s, tool@));
    map_insert(&mut inner, from, to);
    nested_insert(a, tool.clone(), inner);
}

/// Set each of `pairs`, in turn, as an alias of `tool`.
pub fn alias_insert_pairs(a: &mut AliasTable, tool: &String, pairs: &IndexMap<String, String>)
    requires
        alias_wf(alias_table_view(*old(a))),
    ensures
        alias_wf(alias_table_view(*final(a))),
        alias_table_view(*final(a)) == alias_put_pairs(alias_table_view(*old(a)), tool@, map_entries(*pairs)),
{
    let ghost t = map_entries(*pairs);
    let n = map_len(pairs);
    let mut i: usize = 0;
    while i < n
        invariant
            0 <= i <= n,
            n == t.len(),
            t == map_entries(*pairs),
            alias_wf(alias_table_view(*a)),
            alias_table_view(*a) == alias_put_pairs(alias_table_view(*old(a)), tool@, t.subrange(0, i as int)),
        decreases n - i,
    {
        assert(t.subrange(0, i + 1).drop_last() =~= t.subrange(0, i as int));
        assert(t.subrange(0, i + 1).last() == t[i as int]);
        match map_get_index(pairs, i) {
            Some((from, to)) => alias_insert(a, tool, from, to),
            None => {},
        }
        i += 1;
    }
    assert(t.subrange(0, i as int) =~= t);
}

/// Set every alias of `table` over `a`, tool by tool.
pub fn alias_merge_table(a: &mut AliasTable, table: &AliasTable)
    requires
        alias_wf(alias_table_view(*old(a))),
    ensures
        alias_wf(alias_table_view(*final(a))),
        alias_table_view(*final(a)) == alias_merge(alias_table_view(*old(a)), alias_table_view(*table)),
{
    let ghost t = alias_table_view(*table);
    let n = nested_len(table);
    let mut i: usize = 0;
    while i < n
        invariant
            0 <= i <= n,
            n == t.len(),
            t == alias_table_view(*table),
            alias_wf(alias_table_view(*a)),
            alias_table_view(*a) == alias_merge(alias_table_view(*old(a)), t.subrange(0, i as int)),
        decreases n - i,
    {
        assert(t.subrange(0, i + 1).drop_last() =~= t.subrange(0, i as int));
        assert(t.subrange(0, i + 1).last() == t[i as int]);
        match nested_get_index(table, i) {
            Some((tool, inner)) => alias_insert_pairs(a, &tool, &inner),
            None => {},
        }
        i += 1;
    }
    assert(t.subrange(0, i as int) =~= t);
}

/// The resolved aliases: those of each plugin (a plugin whose aliases could
/// not be read, `None`, adds none), then each config file's in discovery
/// order, then the settings', each later one overriding the same alias.
pub fn load_aliases(
    settings: &Settings,
    plugin_aliases: &Vec<(String, Option<IndexMap<String, String>>)>,
    config_files: &ConfigFiles,
) -> (r: AliasTable)
    ensures
        alias_wf(alias_table_view(r)),
        alias_table_view(r) == resolved_aliases(
            alias_table_view(settings.aliases),
            plugin_aliases_view(plugin_aliases@),
            files_of(*config_files),
        ),
{
    let mut a = nested_new();
    let mut i: usize = 0;
    while i < plugin_aliases.len()
        invariant
            0 <= i <= plugin_aliases.len(),
            alias_wf(alias_table_view(a)),
            alias_table_view(a) == plugin_stage(plugin_aliases_view(plugin_aliases@.subrange(0, i as int))),
        decreases plugin_aliases.len() - i,
    {
        let ghost t = plugin_aliases_view(plugin_aliases@.subrange(0, i + 1));
        assert(t.drop_last() =~= plugin_aliases_view(plugin_aliases@.subrange(0, i as int)));
        assert(t.last() == plugin_aliases_view(plugin_aliases@)[i as int]);
        match &plugin_aliases[i].1 {
            Some(pairs) => alias_insert_pairs(&mut a, &plugin_aliases[i].0, pairs),
            None => {},
        }
        i += 1;
    }
    assert(plugin_aliases@.subrange(0, i as int) =~= plugin_aliases@);
    let ghost base = alias_table_view(a);
    let ghost fs = files_of(*config_files);
    let n = files_len(config_files);
    let mut j: usize = 0;
    while j < n
        invariant
            0 <= j <= n,
            fs == files_of(*config_files),
            n == fs.len(),
            alias_wf(alias_table_view(a)),
            alias_table_view(a) == files_stage(base, fs.subrange(0, j as int)),
        decreases n - j,
    {
        assert(fs.subrange(0, j + 1).drop_last() =~= fs.subrange(0, j as int));
        match files_value(config_files, j) {
            Some(f) => {
                assert(*f == fs.subrange(0, j + 1).last());
                alias_merge_table(&mut a, &f.aliases);
            },
            None => {},
        }
        j += 1;
    }
    assert(fs.subrange(0, j as int) =~= fs);
    alias_merge_table(&mut a, &settings.aliases);
    a
}

} // verus!
