//! Building the toolset: config files, then environment variables, then
//! command-line arguments, each layer overriding the one before it tool by
//! tool.
use indexmap::IndexMap;
use vstd::prelude::*;
use crate::config::{cf_entries, files_of, lemma_cf_entries_unique, Config, ConfigFile};
use crate::entries::{has_key, keys_unique, lemma_put, lemma_put_all, lookup, put, put_all};
use crate::ordmap::{files_len, files_value, map_entries, map_get_index, map_len};
use crate::text::{chars_of, lower_of, lowercase, string_of};
use crate::toolset::{
    add_all, appended, lemma_add_all_unique, versions_view, ListView, SourceView, ToolSource, ToolVersion,
    ToolVersionType, ToolVersionView, Toolset, VersionView,
};

verus! {

/// The version given for a tool on the command line.
#[derive(Debug, Clone, PartialEq, Eq)]
pub enum RuntimeArgVersion {
    /// No version: the tool resolves from the other sources.
    Unspecified,
    Version(String),
    Ref(String),
    Path(String),
    Prefix(String),
}

/// A tool named on the command line, with the version given for it.
#[derive(Debug, Clone, PartialEq, Eq)]
pub struct RuntimeArg {
    pub plugin: String,
    pub version: RuntimeArgVersion,
}

impl RuntimeArg {
    pub fn duplicate(&self) -> (r: Self)
        ensures
            r == *self,
    {
        RuntimeArg {
            plugin: self.plugin.clone(),
            version: match &self.version {
                RuntimeArgVersion::Unspecified => RuntimeArgVersion::Unspecified,
                RuntimeArgVersion::Version(v) => RuntimeArgVersion::Version(v.clone()),
                RuntimeArgVersion::Ref(v) => RuntimeArgVersion::Ref(v.clone()),
                RuntimeArgVersion::Path(v) => RuntimeArgVersion::Path(v.clone()),
                RuntimeArgVersion::Prefix(v) => RuntimeArgVersion::Prefix(v.clone()),
            },
        }
    }
}

/// The version that an argument requests, if it requests one.
pub open spec fn arg_version(a: RuntimeArg) -> Option<ToolVersionView> {
    match a.version {
        RuntimeArgVersion::Unspecified => None,
        RuntimeArgVersion::Version(v) => Some((a.plugin@, VersionView::Version(v@))),
        RuntimeArgVersion::Ref(v) => Some((a.plugin@, VersionView::Ref(v@))),
        RuntimeArgVersion::Path(v) => Some((a.plugin@, VersionView::Path(v@))),
        RuntimeArgVersion::Prefix(v) => Some((a.plugin@, VersionView::Prefix(v@))),
    }
}

/// The versions that the arguments request, in order.
pub open spec fn arg_versions(args: Seq<RuntimeArg>) -> Seq<ToolVersionView>
    decreases args.len(),
{
    if args.len() == 0 {
        Seq::empty()
    } else {
        let p = arg_versions(args.drop_last());
        match arg_version(args.last()) {
            Some(v) => p.push(v),
            None => p,
        }
    }
}

/// The argument layer: each tool with the versions given for it, in the
/// order the tools were first named, tagged as arguments.
pub open spec fn arg_entries(args: Seq<RuntimeArg>) -> Seq<(Seq<char>, ListView)> {
    add_all(Seq::empty(), SourceView::Argument, arg_versions(args))
}

/// `k` has the shape `RTX_<TOOL>_VERSION`.
pub open spec fn is_version_var(k: Seq<char>) -> bool {
    &&& k.len() >= 12
    &&& k.subrange(0, 4) == seq!['R', 'T', 'X', '_']
    &&& k.subrange(k.len() - 8, k.len() as int) == seq!['_', 'V', 'E', 'R', 'S', 'I', 'O', 'N']
}

/// The `<TOOL>` part of `RTX_<TOOL>_VERSION`.
pub open spec fn var_tool_part(k: Seq<char>) -> Seq<char> {
    k.subrange(4, k.len() - 8)
}

/// The entry that variable `k` with value `v` gives tool `tool`.
pub open spec fn env_entry(k: Seq<char>, v: Seq<char>, tool: Seq<char>) -> ListView {
    (SourceView::Environment(k, v), seq![(tool, VersionView::Version(v))])
}

/// The tool that variable `k` names, if it names one.
pub open spec fn env_tool(k: Seq<char>) -> Option<Seq<char>> {
    if is_version_var(k) {
        Some(lower_of(var_tool_part(k)))
    } else {
        None
    }
}

/// The environment layer over `s`: each variable that names a tool, in
/// order, replaces that tool's entry.
pub open spec fn env_layer(
    s: Seq<(Seq<char>, ListView)>,
    env: Seq<(Seq<char>, Seq<char>)>,
) -> Seq<(Seq<char>, ListView)>
    decreases env.len(),
{
    if env.len() == 0 {
        s
    } else {
        let p = env_layer(s, env.drop_last());
        let (k, v) = env.last();
        match env_tool(k) {
            Some(t) => put(p, t, env_entry(k, v, t)),
            None => p,
        }
    }
}

/// The config-file layer over `s`: files in reverse order, so that the
/// first (nearest) file is merged last and wins.
pub open spec fn config_layer(
    s: Seq<(Seq<char>, ListView)>,
    files: Seq<ConfigFile>,
) -> Seq<(Seq<char>, ListView)>
    decreases files.len(),
{
    if files.len() == 0 {
        s
    } else {
        put_all(config_layer(s, files.drop_first()), cf_entries(files[0]))
    }
}

/// The whole toolset: config files, then environment, then arguments.
pub open spec fn built_entries(
    files: Seq<ConfigFile>,
    env: Seq<(Seq<char>, Seq<char>)>,
    args: Seq<RuntimeArg>,
) -> Seq<(Seq<char>, ListView)> {
    put_all(env_layer(config_layer(Seq::empty(), files), env), arg_entries(args))
}

pub proof fn lemma_env_layer(s: Seq<(Seq<char>, ListView)>, env: Seq<(Seq<char>, Seq<char>)>)
    requires
        keys_unique(s),
    ensures
        keys_unique(env_layer(s, env)),
        forall|t: Seq<char>|
            (forall|i: int| 0 <= i < env.len() ==> env_tool(#[trigger] env[i].0) != Some(t))
                ==> #[trigger] lookup(env_layer(s, env), t) == lookup(s, t),
    decreases env.len(),
{
    if env.len() > 0 {
        let d = env.drop_last();
        lemma_env_layer(s, d);
        let (k, v) = env.last();
        let p = env_layer(s, d);
        match env_tool(k) {
            Some(t) => {
                lemma_put(p, t, env_entry(k, v, t));
            },
            None => {},
        }
        assert forall|t: Seq<char>|
            (forall|i: int| 0 <= i < env.len() ==> env_tool(#[trigger] env[i].0) != Some(t))
                implies #[trigger] lookup(env_layer(s, env), t) == lookup(s, t) by {
            assert forall|i: int| 0 <= i < d.len() implies env_tool(#[trigger] d[i].0) != Some(t) by {
                assert(d[i] == env[i]);
            }
            assert(env_tool(env[env.len() - 1].0) != Some(t));
        }
    }
}

pub proof fn lemma_config_layer_unique(s: Seq<(Seq<char>, ListView)>, files: Seq<ConfigFile>)
    requires
        keys_unique(s),
    ensures
        keys_unique(config_layer(s, files)),
    decreases files.len(),
{
    if files.len() > 0 {
        lemma_config_layer_unique(s, files.drop_first());
        lemma_cf_entries_unique(files[0]);
        lemma_put_all(config_layer(s, files.drop_first()), cf_entries(files[0]));
    }
}

/// The config-file layer gives a tool the entry of the first file that
/// declares it.
pub proof fn lemma_config_layer_first(
    s: Seq<(Seq<char>, ListView)>,
    files: Seq<ConfigFile>,
    tool: Seq<char>,
    i: int,
)
    requires
        keys_unique(s),
        0 <= i < files.len(),
        has_key(cf_entries(files[i]), tool),
        forall|j: int| 0 <= j < i ==> !has_key(cf_entries(#[trigger] files[j]), tool),
    ensures
        lookup(config_layer(s, files), tool) == lookup(cf_entries(files[i]), tool),
    decreases i,
{
    let rest = files.drop_first();
    lemma_config_layer_unique(s, rest);
    lemma_cf_entries_unique(files[0]);
    lemma_put_all(config_layer(s, rest), cf_entries(files[0]));
    if i > 0 {
        assert forall|j: int| 0 <= j < i - 1 implies !has_key(cf_entries(#[trigger] rest[j]), tool) by {
            assert(rest[j] == files[j + 1]);
        }
        assert(rest[i - 1] == files[i]);
        assert(!has_key(cf_entries(files[0]), tool));
        lemma_config_layer_first(s, rest, tool, i - 1);
    }
}

pub proof fn lemma_add_all_source(
    s: Seq<(Seq<char>, ListView)>,
    source: SourceView,
    vs: Seq<ToolVersionView>,
)
    requires
        keys_unique(s),
        forall|k: Seq<char>| #[trigger] lookup(s, k) matches Some(l) ==> l.0 == source,
    ensures
        forall|k: Seq<char>| #[trigger] lookup(add_all(s, source, vs), k) matches Some(l) ==> l.0 == source,
    decreases vs.len(),
{
    if vs.len() > 0 {
        lemma_add_all_source(s, source, vs.drop_last());
        lemma_add_all_unique(s, source, vs.drop_last());
        let p = add_all(s, source, vs.drop_last());
        let v = vs.last();
        lemma_put(p, v.0, appended(lookup(p, v.0), source, v));
    }
}

/// Precedence of arguments: a tool given a version on the command line ends
/// with exactly the argument entry, tagged as an argument, whatever the
/// config files and the environment request for it.
pub proof fn lemma_argument_wins(
    files: Seq<ConfigFile>,
    env: Seq<(Seq<char>, Seq<char>)>,
    args: Seq<RuntimeArg>,
    tool: Seq<char>,
)
    requires
        has_key(arg_entries(args), tool),
    ensures
        lookup(built_entries(files, env, args), tool) == lookup(arg_entries(args), tool),
        lookup(built_entries(files, env, args), tool) matches Some(l) && l.0 == SourceView::Argument,
{
    let e = Seq::<(Seq<char>, ListView)>::empty();
    lemma_config_layer_unique(e, files);
    lemma_env_layer(config_layer(e, files), env);
    lemma_add_all_unique(e, SourceView::Argument, arg_versions(args));
    lemma_add_all_source(e, SourceView::Argument, arg_versions(args));
    lemma_put_all(env_layer(config_layer(e, files), env), arg_entries(args));
}

/// The environment layer gives a tool the entry of the last variable that
/// names it.
pub proof fn lemma_env_layer_last(
    s: Seq<(Seq<char>, ListView)>,
    env: Seq<(Seq<char>, Seq<char>)>,
    tool: Seq<char>,
    i: int,
)
    requires
        keys_unique(s),
        0 <= i < env.len(),
        env_tool(env[i].0) == Some(tool),
        forall|j: int| i < j < env.len() ==> env_tool(#[trigger] env[j].0) != Some(tool),
    ensures
        lookup(env_layer(s, env), tool) == Some(env_entry(env[i].0, env[i].1, tool)),
    decreases env.len(),
{
    let d = env.drop_last();
    lemma_env_layer(s, d);
    let p = env_layer(s, d);
    let (k, v) = env.last();
    match env_tool(k) {
        Some(t) => {
            lemma_put(p, t, env_entry(k, v, t));
        },
        None => {},
    }
    if i < env.len() - 1 {
        assert(d[i] == env[i]);
        assert forall|j: int| i < j < d.len() implies env_tool(#[trigger] d[j].0) != Some(tool) by {
            assert(d[j] == env[j]);
        }
        lemma_env_layer_last(s, d, tool, i);
    }
}

/// Precedence of the environment over config files: a tool that no
/// argument sets but an environment variable names ends with the entry of
/// the last such variable, tagged with it.
pub proof fn lemma_environment_beats_config_files(
    files: Seq<ConfigFile>,
    env: Seq<(Seq<char>, Seq<char>)>,
    args: Seq<RuntimeArg>,
    tool: Seq<char>,
    i: int,
)
    requires
        0 <= i < env.len(),
        env_tool(env[i].0) == Some(tool),
        forall|j: int| i < j < env.len() ==> env_tool(#[trigger] env[j].0) != Some(tool),
        !has_key(arg_entries(args), tool),
    ensures
        lookup(built_entries(files, env, args), tool) == Some(env_entry(env[i].0, env[i].1, tool)),
{
    let e = Seq::<(Seq<char>, ListView)>::empty();
    lemma_config_layer_unique(e, files);
    lemma_env_layer(config_layer(e, files), env);
    lemma_env_layer_last(config_layer(e, files), env, tool, i);
    lemma_add_all_unique(e, SourceView::Argument, arg_versions(args));
    lemma_put_all(env_layer(config_layer(e, files), env), arg_entries(args));
}

/// Precedence among config files: when neither an argument nor an
/// environment variable sets a tool, it ends with the entry of the nearest
/// config file that declares it.
pub proof fn lemma_nearest_config_file_wins(
    files: Seq<ConfigFile>,
    env: Seq<(Seq<char>, Seq<char>)>,
    args: Seq<RuntimeArg>,
    tool: Seq<char>,
    i: int,
)
    requires
        0 <= i < files.len(),
        has_key(cf_entries(files[i]), tool),
        forall|j: int| 0 <= j < i ==> !has_key(cf_entries(#[trigger] files[j]), tool),
        forall|j: int| 0 <= j < env.len() ==> env_tool(#[trigger] env[j].0) != Some(tool),
        !has_key(arg_entries(args), tool),
    ensures
        lookup(built_entries(files, env, args), tool) == lookup(cf_entries(files[i]), tool),
{
    let e = Seq::<(Seq<char>, ListView)>::empty();
    lemma_config_layer_unique(e, files);
    lemma_config_layer_first(e, files, tool, i);
    lemma_env_layer(config_layer(e, files), env);
    lemma_add_all_unique(e, SourceView::Argument, arg_versions(args));
    lemma_put_all(env_layer(config_layer(e, files), env), arg_entries(args));
}

pub fn arg_tool_version(arg: &RuntimeArg) -> (r: Option<ToolVersion>)
    ensures
        r is None <==> arg_version(*arg) is None,
        r matches Some(v) ==> arg_version(*arg) == Some(v@),
{
    let name = arg.plugin.clone();
    match &arg.version {
        RuntimeArgVersion::Unspecified => None,
        RuntimeArgVersion::Version(v) => Some(ToolVersion::new(name, ToolVersionType::Version(v.clone()))),
        RuntimeArgVersion::Ref(v) => Some(ToolVersion::new(name, ToolVersionType::Ref(v.clone()))),
        RuntimeArgVersion::Path(v) => Some(ToolVersion::new(name, ToolVersionType::Path(v.clone()))),
        RuntimeArgVersion::Prefix(v) => Some(ToolVersion::new(name, ToolVersionType::Prefix(v.clone()))),
    }
}

fn arg_tool_versions(args: &Vec<RuntimeArg>) -> (r: Vec<ToolVersion>)
    ensures
        versions_view(r@) == arg_versions(args@),
{
    let mut r: Vec<ToolVersion> = Vec::new();
    let mut i: usize = 0;
    while i < args.len()
        invariant
            0 <= i <= args.len(),
            versions_view(r@) == arg_versions(args@.subrange(0, i as int)),
        decreases args.len() - i,
    {
        assert(args@.subrange(0, i + 1).drop_last() =~= args@.subrange(0, i as int));
        let ghost r0 = r@;
        match arg_tool_version(&args[i]) {
            Some(v) => {
                r.push(v);
                assert(versions_view(r@) =~= versions_view(r0).push(v@));
            },
            None => {},
        }
        i += 1;
    }
    assert(args@.subrange(0, i as int) =~= args@);
    r
}

/// The argument layer: the versions given for each tool, in the order
/// given, replace that tool's entry; an argument without a version is
/// skipped.
pub fn load_runtime_args(ts: &mut Toolset, args: &Vec<RuntimeArg>)
    requires
        old(ts).wf(),
    ensures
        final(ts).wf(),
        final(ts).entries() == put_all(old(ts).entries(), arg_entries(args@)),
        final(ts).plugins == old(ts).plugins,
{
    let versions = arg_tool_versions(args);
    let mut arg_ts = Toolset::new(ToolSource::Argument);
    arg_ts.add_versions(&versions);
    if args.len() > 0 {
        ts.merge(arg_ts);
    } else {
        assert(args@ =~= Seq::<RuntimeArg>::empty());
        assert(arg_versions(args@) =~= Seq::<ToolVersionView>::empty());
    }
}

/// The tool that an environment variable named `key` sets: the lower-case
/// `<TOOL>` of `RTX_<TOOL>_VERSION`, or `None` for any other name.
pub fn env_var_tool(key: &String) -> (r: Option<String>)
    ensures
        r is Some <==> is_version_var(key@),
        r matches Some(t) ==> t@ == lower_of(var_tool_part(key@)),
{
    let cs = chars_of(key);
    let n = cs.len();
    if n < 12 {
        return None;
    }
    let prefix = cs[0] == 'R' && cs[1] == 'T' && cs[2] == 'X' && cs[3] == '_';
    let suffix = cs[n - 8] == '_' && cs[n - 7] == 'V' && cs[n - 6] == 'E' && cs[n - 5] == 'R'
        && cs[n - 4] == 'S' && cs[n - 3] == 'I' && cs[n - 2] == 'O' && cs[n - 1] == 'N';
    proof {
        let k = key@;
        if prefix {
            assert(k.subrange(0, 4) =~= seq!['R', 'T', 'X', '_']);
        } else if k.subrange(0, 4) == seq!['R', 'T', 'X', '_'] {
            assert(k.subrange(0, 4)[0] == k[0] && k.subrange(0, 4)[1] == k[1]);
            assert(k.subrange(0, 4)[2] == k[2] && k.subrange(0, 4)[3] == k[3]);
        }
        let t = k.subrange(k.len() - 8, k.len() as int);
        let w = seq!['_', 'V', 'E', 'R', 'S', 'I', 'O', 'N'];
        if suffix {
            assert(t =~= w);
        } else if t == w {
            assert(t[0] == k[n - 8] && t[1] == k[n - 7] && t[2] == k[n - 6] && t[3] == k[n - 5]);
            assert(t[4] == k[n - 4] && t[5] == k[n - 3] && t[6] == k[n - 2] && t[7] == k[n - 1]);
        }
    }
    if !(prefix && suffix) {
        return None;
    }
    let mut middle: Vec<char> = Vec::new();
    let mut i: usize = 4;
    while i < n - 8
        invariant
            4 <= i <= n - 8,
            n == cs@.len(),
            n >= 12,
            middle@ == cs@.subrange(4, i as int),
        decreases n - 8 - i,
    {
        middle.push(cs[i]);
        i += 1;
        assert(middle@ =~= cs@.subrange(4, i as int));
    }
    let tool = string_of(middle);
    Some(lowercase(&tool))
}

/// The toolset that environment variable `key` with value `value` gives
/// `tool`: one entry, the version `value`, tagged with the variable.
pub fn env_var_toolset(key: String, value: String, tool: String) -> (r: Toolset)
    ensures
        r.wf(),
        r.entries() == seq![(tool@, env_entry(key@, value@, tool@))],
        r.source == Some(ToolSource::Environment(key, value)),
{
    let v = value.clone();
    let name = tool.clone();
    let mut ts = Toolset::new(ToolSource::Environment(key, value));
    ts.add_version(tool, ToolVersion::new(name, ToolVersionType::Version(v)));
    assert(ts.entries() =~= seq![(tool@, env_entry(key@, value@, tool@))]);
    ts
}

/// The environment layer: each variable `RTX_<TOOL>_VERSION`, in order,
/// replaces the entry of `<tool>` with its value.
pub fn load_runtime_env(ts: &mut Toolset, env: &IndexMap<String, String>)
    requires
        old(ts).wf(),
    ensures
        final(ts).wf(),
        final(ts).entries() == env_layer(old(ts).entries(), map_entries(*env)),
        final(ts).plugins == old(ts).plugins,
{
    let ghost t = map_entries(*env);
    let n = map_len(env);
    let mut i: usize = 0;
    while i < n
        invariant
            0 <= i <= n,
            n == t.len(),
            t == map_entries(*env),
            ts.wf(),
            ts.entries() == env_layer(old(ts).entries(), t.subrange(0, i as int)),
            ts.plugins == old(ts).plugins,
        decreases n - i,
    {
        assert(t.subrange(0, i + 1).drop_last() =~= t.subrange(0, i as int));
        assert(t.subrange(0, i + 1).last() == t[i as int]);
        match map_get_index(env, i) {
            Some((k, v)) => {
                match env_var_tool(&k) {
                    Some(tool) => {
                        let env_ts = env_var_toolset(k, v, tool);
                        let ghost s = ts.entries();
                        let ghost single = env_ts.entries();
                        ts.merge(env_ts);
                        assert(single.drop_last() =~= Seq::<(Seq<char>, ListView)>::empty());
                        assert(single.len() == 1);
                        assert(put_all(s, single.drop_last()) == s);
                        assert(put_all(s, single) == put(s, single.last().0, single.last().1));
                    },
                    None => {},
                }
            },
            None => {},
        }
        i += 1;
    }
    assert(t.subrange(0, i as int) =~= t);
}

/// The config-file layer: every config file's toolset, the last file first,
/// so that the first (nearest) file wins.
pub fn load_config_files(config: &Config, ts: &mut Toolset)
    requires
        old(ts).wf(),
    ensures
        final(ts).wf(),
        final(ts).entries() == config_layer(old(ts).entries(), files_of(config.config_files)),
        final(ts).plugins == old(ts).plugins,
{
    let ghost fs = files_of(config.config_files);
    let n = files_len(&config.config_files);
    let mut i: usize = n;
    while i > 0
        invariant
            0 <= i <= n,
            fs == files_of(config.config_files),
            n == fs.len(),
            ts.wf(),
            ts.entries() == config_layer(old(ts).entries(), fs.subrange(i as int, n as int)),
            ts.plugins == old(ts).plugins,
        decreases i,
    {
        assert(fs.subrange(i - 1, n as int).drop_first() =~= fs.subrange(i as int, n as int));
        match files_value(&config.config_files, i - 1) {
            Some(f) => {
                assert(*f == fs.subrange(i - 1, n as int)[0]);
                let cf_ts = f.to_toolset();
                ts.merge(cf_ts);
            },
            None => {},
        }
        i -= 1;
    }
    assert(fs.subrange(0, n as int) =~= fs);
}

pub fn copy_strings(v: &Vec<String>) -> (r: Vec<String>)
    ensures
        r@ == v@,
{
    let mut r: Vec<String> = Vec::new();
    let mut i: usize = 0;
    while i < v.len()
        invariant
            0 <= i <= v.len(),
            r@ == v@.subrange(0, i as int),
        decreases v.len() - i,
    {
        r.push(v[i].clone());
        i += 1;
        assert(r@ =~= v@.subrange(0, i as int));
    }
    assert(v@.subrange(0, i as int) =~= v@);
    r
}

/// Gathers what the toolset is built from besides the configuration.
#[derive(Debug, Clone, PartialEq, Eq)]
pub struct ToolsetBuilder {
    pub args: Vec<RuntimeArg>,
    pub install_missing: bool,
}

impl ToolsetBuilder {
    pub fn new() -> (r: Self)
        ensures
            r.args@.len() == 0,
            !r.install_missing,
    {
        ToolsetBuilder { args: Vec::new(), install_missing: false }
    }

    pub fn with_args(self, args: &Vec<RuntimeArg>) -> (r: Self)
        ensures
            r.args@ == args@,
            r.install_missing == self.install_missing,
    {
        let mut copied: Vec<RuntimeArg> = Vec::new();
        let mut i: usize = 0;
        while i < args.len()
            invariant
                0 <= i <= args.len(),
                copied@ == args@.subrange(0, i as int),
            decreases args.len() - i,
        {
            copied.push(args[i].duplicate());
            i += 1;
            assert(copied@ =~= args@.subrange(0, i as int));
        }
        assert(args@.subrange(0, i as int) =~= args@);
        ToolsetBuilder { args: copied, install_missing: self.install_missing }
    }

    pub fn with_install_missing(self) -> (r: Self)
        ensures
            r.args == self.args,
            r.install_missing,
    {
        ToolsetBuilder { args: self.args, install_missing: true }
    }

    /// The toolset that the configuration, the environment variables `env`
    /// and the arguments request: config files, then environment, then
    /// arguments, each overriding the last tool by tool.
    pub fn build(&self, config: &Config, env: &IndexMap<String, String>) -> (r: Toolset)
        ensures
            r.wf(),
            r.entries() == built_entries(files_of(config.config_files), map_entries(*env), self.args@),
            r.plugins@ == config.plugins@,
    {
        let mut ts = Toolset::empty().with_plugins(copy_strings(&config.plugins));
        load_config_files(config, &mut ts);
        load_runtime_env(&mut ts, env);
        load_runtime_args(&mut ts, &self.args);
        ts
    }
}

} // verus!
