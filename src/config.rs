//! Parsed config files and the configuration aggregate built from them.
use indexmap::IndexMap;
use itertools::Itertools;
use vstd::prelude::*;
use crate::aliases::{load_aliases, plugin_aliases_view, resolved_aliases};
use crate::entries::{has_key, index_of, keys_unique, lemma_remove_key, lookup, put_all};
use crate::ordmap::{
    file_entries, files_contains, files_insert, files_len, files_new, files_shift_remove, files_value,
    map_entries, map_get, map_get_index, map_insert, map_len, map_new,
};
use crate::settings::{
    alias_table_view, built_from, merged, AliasTable, PartialSettings, PartialSettingsView, Settings,
    SettingsBuilder,
};
use crate::strmap::put_pairs;
use crate::text::{chars_of, string_of};
use crate::toolset::{
    add_all, lemma_add_all_unique, versions_view, ListView, SourceView, ToolSource, ToolVersion,
    Toolset,
};

verus! {

/// A parsed config file: what it declares, addressed by its path.
#[derive(Debug, PartialEq, Eq)]
pub struct ConfigFile {
    pub path: String,
    pub settings: PartialSettings,
    pub env: IndexMap<String, String>,
    pub aliases: AliasTable,
    pub tools: Vec<ToolVersion>,
}

/// The toolset that a config file declares: its tool versions in order,
/// tagged with the file's path.
pub open spec fn cf_entries(cf: ConfigFile) -> Seq<(Seq<char>, ListView)> {
    add_all(Seq::empty(), SourceView::ConfigFile(cf.path@), versions_view(cf.tools@))
}

pub proof fn lemma_cf_entries_unique(cf: ConfigFile)
    ensures
        keys_unique(cf_entries(cf)),
{
    lemma_add_all_unique(Seq::empty(), SourceView::ConfigFile(cf.path@), versions_view(cf.tools@));
}

impl ConfigFile {
    pub fn to_toolset(&self) -> (r: Toolset)
        ensures
            r.wf(),
            r.entries() == cf_entries(*self),
            r.source == Some(ToolSource::ConfigFile(self.path)),
    {
        let mut ts = Toolset::new(ToolSource::ConfigFile(self.path.clone()));
        ts.add_versions(&self.tools);
        ts
    }
}

/// The loaded configuration.
#[derive(Debug, PartialEq, Eq)]
pub struct Config {
    pub settings: Settings,
    pub rtxrc: PartialSettings,
    pub legacy_files: IndexMap<String, String>,
    pub config_files: ConfigFiles,
    pub aliases: AliasTable,
    pub plugins: Vec<String>,
    pub env: IndexMap<String, String>,
}

/// The texts of a sequence of strings.
pub open spec fn strings_view(s: Seq<String>) -> Seq<Seq<char>> {
    s.map_values(|x: String| x@)
}

/// Each text once, at the place where it first occurs.
pub open spec fn dedup(s: Seq<Seq<char>>) -> Seq<Seq<char>>
    decreases s.len(),
{
    if s.len() == 0 {
        s
    } else {
        let d = dedup(s.drop_last());
        if d.contains(s.last()) {
            d
        } else {
            d.push(s.last())
        }
    }
}

pub proof fn lemma_dedup_unique(s: Seq<Seq<char>>)
    ensures
        texts_unique(dedup(s)),
        forall|x: Seq<char>| dedup(s).contains(x) <==> s.contains(x),
    decreases s.len(),
{
    if s.len() > 0 {
        let d = s.drop_last();
        lemma_dedup_unique(d);
        let dd = dedup(d);
        assert forall|x: Seq<char>| s.contains(x) <==> (d.contains(x) || x == s.last()) by {
            if s.contains(x) && x != s.last() {
                let j = choose|j: int| 0 <= j < s.len() && s[j] == x;
                assert(d[j] == x);
            }
            if d.contains(x) {
                let j = choose|j: int| 0 <= j < d.len() && d[j] == x;
                assert(s[j] == x);
            }
            if x == s.last() {
                assert(s[s.len() - 1] == x);
            }
        }
        if !dd.contains(s.last()) {
            let r = dd.push(s.last());
            assert forall|x: Seq<char>| r.contains(x) <==> (dd.contains(x) || x == s.last()) by {
                if r.contains(x) && x != s.last() {
                    let j = choose|j: int| 0 <= j < r.len() && r[j] == x;
                    assert(j < dd.len());
                    assert(dd[j] == x);
                }
                if dd.contains(x) {
                    let j = choose|j: int| 0 <= j < dd.len() && dd[j] == x;
                    assert(r[j] == x);
                }
                if x == s.last() {
                    assert(r[dd.len() as int] == x);
                }
            }
            assert forall|i: int, j: int| 0 <= i < r.len() && 0 <= j < r.len() && i != j implies r[i] != r[j] by {
                if i == dd.len() {
                    assert(dd[j] == r[j]);
                } else if j == dd.len() {
                    assert(dd[i] == r[i]);
                } else {
                    assert(dd[i] == r[i] && dd[j] == r[j]);
                }
            }
        }
    }
}

/// Relies on `itertools::Itertools::unique`: the values in order, each
/// after its first occurrence left out.
#[verifier::external_body]
fn unique_strings(v: Vec<String>) -> (r: Vec<String>)
    ensures
        strings_view(r@) == dedup(strings_view(v@)),
{
    v.into_iter().unique().collect()
}

/// `a` sorts before or equal to `b`: character by character, a prefix
/// first.
pub open spec fn text_le(a: Seq<char>, b: Seq<char>) -> bool
    decreases a.len(),
{
    if a.len() == 0 {
        true
    } else if b.len() == 0 {
        false
    } else if a[0] != b[0] {
        (a[0] as u32) < (b[0] as u32)
    } else {
        text_le(a.drop_first(), b.drop_first())
    }
}

/// Relies on `itertools::Itertools::sorted`: the same strings, ascending
/// in `String`'s order, which compares character by character.
#[verifier::external_body]
fn sorted_strings(v: Vec<String>) -> (r: Vec<String>)
    ensures
        strings_view(r@).to_multiset() == strings_view(v@).to_multiset(),
        forall|i: int, j: int| 0 <= i < j < r@.len() ==> text_le(#[trigger] r@[i]@, #[trigger] r@[j]@),
{
    v.into_iter().sorted().collect()
}

/// The installed plugins in a fixed order, whatever order they were listed
/// in: the same names, ascending.
pub fn load_plugins(names: Vec<String>) -> (r: Vec<String>)
    ensures
        strings_view(r@).to_multiset() == strings_view(names@).to_multiset(),
        forall|i: int, j: int| 0 <= i < j < r@.len() ==> text_le(#[trigger] r@[i]@, #[trigger] r@[j]@),
{
    sorted_strings(names)
}

/// The last component of a path: what follows its last `/`.
pub open spec fn file_name_of(p: Seq<char>) -> Seq<char>
    decreases p.len(),
{
    if p.len() == 0 {
        p
    } else if p.last() == '/' {
        Seq::empty()
    } else {
        file_name_of(p.drop_last()).push(p.last())
    }
}

/// The plugin whose legacy parser reads the file at `path`: the owner of
/// its file name in the legacy file index; `None` when the generic parser
/// reads it.
pub fn parser_for(path: &String, legacy_files: &IndexMap<String, String>) -> (r: Option<String>)
    ensures
        r is Some <==> has_key(map_entries(*legacy_files), file_name_of(path@)),
        r matches Some(p) ==> lookup(map_entries(*legacy_files), file_name_of(path@)) == Some(p@),
{
    let cs = chars_of(path);
    let mut start: usize = cs.len();
    assert(cs@.subrange(0, start as int) =~= cs@);
    assert(file_name_of(cs@) + cs@.subrange(start as int, cs@.len() as int) =~= file_name_of(cs@));
    while start > 0 && cs[start - 1] != '/'
        invariant
            0 <= start <= cs@.len(),
            file_name_of(cs@) == file_name_of(cs@.subrange(0, start as int)) + cs@.subrange(start as int, cs@.len() as int),
        decreases start,
    {
        let ghost pre = cs@.subrange(0, start as int);
        assert(pre.drop_last() =~= cs@.subrange(0, start - 1));
        assert(cs@.subrange(start - 1, cs@.len() as int) =~= seq![pre.last()] + cs@.subrange(start as int, cs@.len() as int));
        start -= 1;
    }
    proof {
        let pre = cs@.subrange(0, start as int);
        if start > 0 {
            assert(pre.last() == '/');
        }
        assert(file_name_of(pre) =~= Seq::<char>::empty());
    }
    let mut name: Vec<char> = Vec::new();
    let mut i: usize = start;
    while i < cs.len()
        invariant
            start <= i <= cs@.len(),
            name@ == cs@.subrange(start as int, i as int),
        decreases cs@.len() - i,
    {
        name.push(cs[i]);
        i += 1;
        assert(name@ =~= cs@.subrange(start as int, i as int));
    }
    assert(name@ =~= file_name_of(cs@));
    let file_name = string_of(name);
    map_get(legacy_files, &file_name)
}

/// The file names looked for in each directory: the default config file
/// name, the default tool-versions file name, then every legacy file name,
/// the whole list reversed.
pub open spec fn candidate_names(
    default_config: Seq<char>,
    default_tool_versions: Seq<char>,
    legacy: Seq<(Seq<char>, Seq<char>)>,
) -> Seq<Seq<char>> {
    (seq![default_config, default_tool_versions] + keys_of(legacy)).reverse()
}

pub open spec fn keys_of(s: Seq<(Seq<char>, Seq<char>)>) -> Seq<Seq<char>> {
    s.map_values(|p: (Seq<char>, Seq<char>)| p.0)
}

pub fn candidate_filenames(
    default_config: &String,
    default_tool_versions: &String,
    legacy_files: &IndexMap<String, String>,
) -> (r: Vec<String>)
    ensures
        strings_view(r@) == candidate_names(default_config@, default_tool_versions@, map_entries(*legacy_files)),
{
    let ghost want = candidate_names(default_config@, default_tool_versions@, map_entries(*legacy_files));
    let ghost fwd = seq![default_config@, default_tool_versions@] + keys_of(map_entries(*legacy_files));
    let n = map_len(legacy_files);
    let mut r: Vec<String> = Vec::new();
    let mut i: usize = n;
    while i > 0
        invariant
            0 <= i <= n,
            n == map_entries(*legacy_files).len(),
            fwd == seq![default_config@, default_tool_versions@] + keys_of(map_entries(*legacy_files)),
            fwd.len() == n + 2,
            want == fwd.reverse(),
            r@.len() == n - i,
            forall|j: int| 0 <= j < n - i ==> #[trigger] r@[j]@ == want[j],
        decreases i,
    {
        assert(want[n - i] == fwd[i + 1]);
        assert(fwd[i + 1] == keys_of(map_entries(*legacy_files))[i - 1]);
        match map_get_index(legacy_files, i - 1) {
            Some((k, _)) => r.push(k),
            None => {},
        }
        i -= 1;
    }
    assert(want[n as int] == fwd[1]);
    r.push(default_tool_versions.clone());
    assert(want[n + 1] == fwd[0]);
    r.push(default_config.clone());
    assert(strings_view(r@) =~= want);
    r
}

/// The config files found: those found walking up from the working
/// directory, nearest first, then the one in the home directory, each path
/// once.
pub fn discover_paths(found: Vec<String>, home_config: Option<String>) -> (r: Vec<String>)
    ensures
        strings_view(r@) == dedup(strings_view(found@) + match home_config {
            Some(h) => seq![h@],
            None => Seq::empty(),
        }),
        texts_unique(strings_view(r@)),
{
    let mut all = found;
    let ghost f = strings_view(all@);
    match home_config {
        Some(h) => {
            all.push(h);
        },
        None => {},
    }
    assert(strings_view(all@) =~= f + match home_config {
        Some(h) => seq![h@],
        None => Seq::<Seq<char>>::empty(),
    });
    proof {
        lemma_dedup_unique(strings_view(all@));
    }
    unique_strings(all)
}

/// The config files, keyed by path, in discovery order.
pub type ConfigFiles = IndexMap<String, ConfigFile>;

/// The files of a config-file map, in order.
pub open spec fn files_of(m: ConfigFiles) -> Seq<ConfigFile> {
    file_entries(m).map_values(|p: (Seq<char>, ConfigFile)| p.1)
}

/// No text occurs twice.
pub open spec fn texts_unique(s: Seq<Seq<char>>) -> bool {
    forall|i: int, j: int| 0 <= i < s.len() && 0 <= j < s.len() && i != j ==> s[i] != s[j]
}

/// The candidates that no file of `known` was parsed from, in order.
pub open spec fn unparsed(cands: Seq<Seq<char>>, known: Seq<(Seq<char>, ConfigFile)>) -> Seq<Seq<char>>
    decreases cands.len(),
{
    if cands.len() == 0 {
        cands
    } else {
        let p = unparsed(cands.drop_last(), known);
        if has_key(known, cands.last()) {
            p
        } else {
            p.push(cands.last())
        }
    }
}

/// The config files for the candidates, in order, each under its path: a
/// file parsed before is taken as it is, else the newly parsed one; a
/// candidate with neither (it failed to parse) is left out.
pub open spec fn assembled(
    cands: Seq<Seq<char>>,
    existing: Seq<(Seq<char>, ConfigFile)>,
    parsed: Seq<(Seq<char>, ConfigFile)>,
) -> Seq<(Seq<char>, ConfigFile)>
    decreases cands.len(),
{
    if cands.len() == 0 {
        Seq::empty()
    } else {
        let a = assembled(cands.drop_last(), existing, parsed);
        let c = cands.last();
        if has_key(existing, c) {
            a.push((c, lookup(existing, c)->0))
        } else if has_key(parsed, c) {
            a.push((c, lookup(parsed, c)->0))
        } else {
            a
        }
    }
}

pub proof fn lemma_assembled_keys(
    cands: Seq<Seq<char>>,
    existing: Seq<(Seq<char>, ConfigFile)>,
    parsed: Seq<(Seq<char>, ConfigFile)>,
    k: Seq<char>,
)
    requires
        has_key(assembled(cands, existing, parsed), k),
    ensures
        cands.contains(k),
    decreases cands.len(),
{
    if cands.len() > 0 {
        let d = cands.drop_last();
        let a = assembled(d, existing, parsed);
        if has_key(a, k) {
            lemma_assembled_keys(d, existing, parsed, k);
            let j = choose|j: int| 0 <= j < d.len() && d[j] == k;
            assert(cands[j] == k);
        } else {
            let r = assembled(cands, existing, parsed);
            let w = index_of(r, k);
            assert(w == a.len());
            assert(cands[cands.len() - 1] == k);
        }
    }
}

/// The candidates that still need parsing: those that no file of
/// `existing` was parsed from. None of them is the path of an existing
/// file, so no file is parsed twice.
pub fn paths_to_parse(candidates: &Vec<String>, existing: &ConfigFiles) -> (r: Vec<String>)
    ensures
        strings_view(r@) == unparsed(strings_view(candidates@), file_entries(*existing)),
        forall|i: int| 0 <= i < r@.len() ==> !has_key(file_entries(*existing), #[trigger] r@[i]@),
{
    let mut r: Vec<String> = Vec::new();
    let mut i: usize = 0;
    while i < candidates.len()
        invariant
            0 <= i <= candidates.len(),
            strings_view(r@) == unparsed(strings_view(candidates@.subrange(0, i as int)), file_entries(*existing)),
            forall|a: int| 0 <= a < r@.len() ==> !has_key(file_entries(*existing), #[trigger] r@[a]@),
        decreases candidates.len() - i,
    {
        let ghost c = strings_view(candidates@.subrange(0, i + 1));
        assert(c.drop_last() =~= strings_view(candidates@.subrange(0, i as int)));
        assert(c.last() == candidates@[i as int]@);
        if !files_contains(existing, &candidates[i]) {
            let ghost r0 = r@;
            r.push(candidates[i].clone());
            assert(strings_view(r@) =~= strings_view(r0).push(candidates@[i as int]@));
        }
        i += 1;
    }
    assert(candidates@.subrange(0, i as int) =~= candidates@);
    r
}

/// The config files for `candidates`, in their order, each under its path:
/// the one of `existing` under that path, unchanged, when there is one,
/// else the one of `parsed`; a candidate with neither is left out.
pub fn load_all_config_files(
    candidates: &Vec<String>,
    existing: ConfigFiles,
    parsed: ConfigFiles,
) -> (r: ConfigFiles)
    requires
        texts_unique(strings_view(candidates@)),
        keys_unique(file_entries(existing)),
        keys_unique(file_entries(parsed)),
    ensures
        file_entries(r) == assembled(strings_view(candidates@), file_entries(existing), file_entries(parsed)),
{
    let ghost e0 = file_entries(existing);
    let ghost p0 = file_entries(parsed);
    let ghost cs = strings_view(candidates@);
    let mut existing = existing;
    let mut parsed = parsed;
    let mut r = files_new();
    let mut i: usize = 0;
    while i < candidates.len()
        invariant
            0 <= i <= candidates.len(),
            cs == strings_view(candidates@),
            texts_unique(cs),
            keys_unique(file_entries(existing)),
            keys_unique(file_entries(parsed)),
            file_entries(r) == assembled(cs.subrange(0, i as int), e0, p0),
            forall|j: int| i <= j < cs.len() ==> #[trigger] has_key(file_entries(existing), cs[j]) == has_key(e0, cs[j]),
            forall|j: int| i <= j < cs.len() ==> #[trigger] lookup(file_entries(existing), cs[j]) == lookup(e0, cs[j]),
            forall|j: int| i <= j < cs.len() ==> #[trigger] has_key(file_entries(parsed), cs[j]) == has_key(p0, cs[j]),
            forall|j: int| i <= j < cs.len() ==> #[trigger] lookup(file_entries(parsed), cs[j]) == lookup(p0, cs[j]),
        decreases candidates.len() - i,
    {
        let ghost c = cs[i as int];
        let ghost sub = cs.subrange(0, i + 1);
        assert(sub.drop_last() =~= cs.subrange(0, i as int));
        assert(sub.last() == c);
        assert(c == candidates@[i as int]@);
        let ghost e1 = file_entries(existing);
        let ghost q1 = file_entries(parsed);
        let ghost r1 = file_entries(r);
        assert(has_key(e1, c) == has_key(e0, c));
        assert(lookup(e1, c) == lookup(e0, c));
        assert(has_key(q1, c) == has_key(p0, c));
        assert(lookup(q1, c) == lookup(p0, c));
        proof {
            if has_key(r1, c) {
                lemma_assembled_keys(cs.subrange(0, i as int), e0, p0, c);
                let j = choose|j: int| 0 <= j < i && cs.subrange(0, i as int)[j] == c;
                assert(cs[j] == c);
            }
            assert forall|j: int| i + 1 <= j < cs.len() implies cs[j] != c by {}
        }
        match files_shift_remove(&mut existing, &candidates[i]) {
            Some(f) => {
                proof {
                    lemma_remove_key(e1, c);
                }
                files_insert(&mut r, candidates[i].clone(), f);
            },
            None => {
                match files_shift_remove(&mut parsed, &candidates[i]) {
                    Some(f) => {
                        proof {
                            lemma_remove_key(q1, c);
                        }
                        files_insert(&mut r, candidates[i].clone(), f);
                    },
                    None => {},
                }
            },
        }
        i += 1;
    }
    assert(cs.subrange(0, i as int) =~= cs);
    r
}

/// The environment variables that the config files set, in discovery
/// order, a later file overriding the same variable.
pub open spec fn env_of(files: Seq<ConfigFile>) -> Seq<(Seq<char>, Seq<char>)>
    decreases files.len(),
{
    if files.len() == 0 {
        Seq::empty()
    } else {
        put_all(env_of(files.drop_last()), map_entries(files.last().env))
    }
}

pub fn load_env(config_files: &ConfigFiles) -> (r: IndexMap<String, String>)
    ensures
        keys_unique(map_entries(r)),
        map_entries(r) == env_of(files_of(*config_files)),
{
    let ghost fs = files_of(*config_files);
    let mut r = map_new();
    let n = files_len(config_files);
    let mut i: usize = 0;
    while i < n
        invariant
            0 <= i <= n,
            fs == files_of(*config_files),
            n == fs.len(),
            keys_unique(map_entries(r)),
            map_entries(r) == env_of(fs.subrange(0, i as int)),
        decreases n - i,
    {
        assert(fs.subrange(0, i + 1).drop_last() =~= fs.subrange(0, i as int));
        match files_value(config_files, i) {
            Some(f) => {
                assert(*f == fs.subrange(0, i + 1).last());
                put_pairs(&mut r, &f.env);
            },
            None => {},
        }
        i += 1;
    }
    assert(fs.subrange(0, i as int) =~= fs);
    r
}

/// The settings of `base` with those of every config file merged over
/// them, in discovery order.
pub open spec fn settings_stage(base: PartialSettingsView, files: Seq<ConfigFile>) -> PartialSettingsView
    decreases files.len(),
{
    if files.len() == 0 {
        base
    } else {
        merged(settings_stage(base, files.drop_last()), files.last().settings@)
    }
}

pub fn merge_file_settings(builder: &mut SettingsBuilder, config_files: &ConfigFiles)
    ensures
        final(builder).partial@ == settings_stage(old(builder).partial@, files_of(*config_files)),
{
    let ghost fs = files_of(*config_files);
    let n = files_len(config_files);
    let mut i: usize = 0;
    while i < n
        invariant
            0 <= i <= n,
            fs == files_of(*config_files),
            n == fs.len(),
            builder.partial@ == settings_stage(old(builder).partial@, fs.subrange(0, i as int)),
        decreases n - i,
    {
        assert(fs.subrange(0, i + 1).drop_last() =~= fs.subrange(0, i as int));
        match files_value(config_files, i) {
            Some(f) => {
                assert(*f == fs.subrange(0, i + 1).last());
                builder.merge(&f.settings);
            },
            None => {},
        }
        i += 1;
    }
    assert(fs.subrange(0, i as int) =~= fs);
}

/// The settings of the root settings file with those of every config file
/// merged over them in discovery order, unset fields at their defaults.
pub fn load_settings(rtxrc: &PartialSettings, config_files: &ConfigFiles) -> (r: Settings)
    ensures
        built_from(r, settings_stage(rtxrc@, files_of(*config_files))),
{
    let mut b = SettingsBuilder::new();
    b.merge(rtxrc);
    assert(b.partial@ == rtxrc@);
    merge_file_settings(&mut b, config_files);
    b.build()
}

/// Legacy file names per plugin, as plain text; a plugin whose names could
/// not be read has `None`.
pub open spec fn plugin_names_view(s: Seq<(String, Option<Vec<String>>)>) -> Seq<(Seq<char>, Option<Seq<Seq<char>>>)> {
    s.map_values(|p: (String, Option<Vec<String>>)| (p.0@, match p.1 {
        Some(v) => Some(strings_view(v@)),
        None => None,
    }))
}

/// Each of `names` paired with `plugin`.
pub open spec fn owned_by(names: Seq<Seq<char>>, plugin: Seq<char>) -> Seq<(Seq<char>, Seq<char>)> {
    names.map_values(|n: Seq<char>| (n, plugin))
}

/// The legacy file index: each legacy file name with the plugin that reads
/// it, plugins in order, a later plugin taking over a name; a plugin that
/// failed adds none.
pub open spec fn legacy_index(plugins: Seq<(Seq<char>, Option<Seq<Seq<char>>>)>) -> Seq<(Seq<char>, Seq<char>)>
    decreases plugins.len(),
{
    if plugins.len() == 0 {
        Seq::empty()
    } else {
        let p = legacy_index(plugins.drop_last());
        match plugins.last().1 {
            Some(names) => put_all(p, owned_by(names, plugins.last().0)),
            None => p,
        }
    }
}

/// The legacy file index, or an empty one when the settings turn legacy
/// version files off.
pub fn load_legacy_files(
    settings: &Settings,
    plugin_filenames: &Vec<(String, Option<Vec<String>>)>,
) -> (r: IndexMap<String, String>)
    ensures
        keys_unique(map_entries(r)),
        map_entries(r) == if settings.legacy_version_file {
            legacy_index(plugin_names_view(plugin_filenames@))
        } else {
            Seq::empty()
        },
{
    let mut r = map_new();
    if !settings.legacy_version_file {
        return r;
    }
    let mut i: usize = 0;
    while i < plugin_filenames.len()
        invariant
            0 <= i <= plugin_filenames.len(),
            keys_unique(map_entries(r)),
            map_entries(r) == legacy_index(plugin_names_view(plugin_filenames@.subrange(0, i as int))),
        decreases plugin_filenames.len() - i,
    {
        let ghost t = plugin_names_view(plugin_filenames@.subrange(0, i + 1));
        assert(t.drop_last() =~= plugin_names_view(plugin_filenames@.subrange(0, i as int)));
        assert(t.last() == plugin_names_view(plugin_filenames@)[i as int]);
        let plugin = &plugin_filenames[i].0;
        match &plugin_filenames[i].1 {
            Some(names) => {
                let ghost base = map_entries(r);
                let mut j: usize = 0;
                while j < names.len()
                    invariant
                        0 <= j <= names.len(),
                        keys_unique(map_entries(r)),
                        map_entries(r) == put_all(base, owned_by(strings_view(names@.subrange(0, j as int)), plugin@)),
                    decreases names.len() - j,
                {
                    let ghost o = owned_by(strings_view(names@.subrange(0, j + 1)), plugin@);
                    assert(o.drop_last() =~= owned_by(strings_view(names@.subrange(0, j as int)), plugin@));
                    assert(o.last() == (names@[j as int]@, plugin@));
                    map_insert(&mut r, names[j].clone(), plugin.clone());
                    j += 1;
                }
                assert(names@.subrange(0, j as int) =~= names@);
            },
            None => {},
        }
        i += 1;
    }
    assert(plugin_filenames@.subrange(0, i as int) =~= plugin_filenames@);
    r
}

impl Config {
    /// The configuration from its parts: the environment variables that the
    /// config files set and the resolved aliases are computed here.
    pub fn new(
        settings: Settings,
        rtxrc: PartialSettings,
        legacy_files: IndexMap<String, String>,
        config_files: ConfigFiles,
        plugins: Vec<String>,
        plugin_aliases: &Vec<(String, Option<IndexMap<String, String>>)>,
    ) -> (r: Self)
        ensures
            r.settings == settings,
            r.rtxrc == rtxrc,
            r.legacy_files == legacy_files,
            r.config_files == config_files,
            r.plugins == plugins,
            map_entries(r.env) == env_of(files_of(config_files)),
            alias_table_view(r.aliases) == resolved_aliases(
                alias_table_view(settings.aliases),
                plugin_aliases_view(plugin_aliases@),
                files_of(config_files),
            ),
    {
        let env = load_env(&config_files);
        let aliases = load_aliases(&settings, plugin_aliases, &config_files);
        Config { settings, rtxrc, legacy_files, config_files, aliases, plugins, env }
    }
}

} // verus!
