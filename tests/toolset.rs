use indexmap::IndexMap;
use rtx::aliases::load_aliases;
use rtx::builder::{
    env_var_tool, env_var_toolset, load_runtime_args, load_runtime_env, RuntimeArg,
    RuntimeArgVersion, ToolsetBuilder,
};
use rtx::config::{
    candidate_filenames, discover_paths, load_all_config_files, load_env, load_legacy_files,
    load_plugins, parser_for, paths_to_parse, Config, ConfigFile,
};
use rtx::settings::{MissingRuntimeBehavior, PartialSettings, Settings, SettingsBuilder};
use rtx::toolset::{ToolSource, ToolVersion, ToolVersionList, ToolVersionType, Toolset};

fn s(x: &str) -> String {
    x.to_string()
}

fn im(pairs: &[(&str, &str)]) -> IndexMap<String, String> {
    let mut m = IndexMap::new();
    for (k, v) in pairs {
        m.insert(s(k), s(v));
    }
    m
}

fn pairs(m: &IndexMap<String, String>) -> Vec<(String, String)> {
    m.iter().map(|(k, v)| (k.clone(), v.clone())).collect()
}

fn nested(t: &[(&str, &[(&str, &str)])]) -> IndexMap<String, IndexMap<String, String>> {
    let mut m = IndexMap::new();
    for (k, pairs) in t {
        m.insert(s(k), im(pairs));
    }
    m
}

fn alias_pairs(t: &IndexMap<String, IndexMap<String, String>>) -> Vec<(String, Vec<(String, String)>)> {
    t.iter().map(|(k, m)| (k.clone(), pairs(m))).collect()
}

fn empty_partial() -> PartialSettings {
    PartialSettings {
        experimental: None,
        missing_runtime_behavior: None,
        legacy_version_file: None,
        always_keep_download: None,
        verbose: None,
        aliases: None,
    }
}

fn default_settings() -> Settings {
    SettingsBuilder::new().build()
}

fn config_file(path: &str, tools: &[(&str, ToolVersionType)]) -> ConfigFile {
    ConfigFile {
        path: s(path),
        settings: empty_partial(),
        env: IndexMap::new(),
        aliases: IndexMap::new(),
        tools: tools
            .iter()
            .map(|(t, v)| ToolVersion::new(s(t), v.clone()))
            .collect(),
    }
}

fn files(v: Vec<ConfigFile>) -> IndexMap<String, ConfigFile> {
    v.into_iter().map(|f| (f.path.clone(), f)).collect()
}

fn config_with(v: Vec<ConfigFile>) -> Config {
    Config::new(default_settings(), empty_partial(), IndexMap::new(), files(v), vec![s("node"), s("python")], &vec![])
}

fn entry<'a>(ts: &'a Toolset, tool: &str) -> Option<&'a ToolVersionList> {
    ts.versions.iter().find(|(k, _)| k == tool).map(|(_, l)| l)
}

fn arg(tool: &str, version: RuntimeArgVersion) -> RuntimeArg {
    RuntimeArg { plugin: s(tool), version }
}

#[test]
fn argument_beats_environment_and_config_file() {
    let config = config_with(vec![config_file("/p/.tool-versions", &[("node", ToolVersionType::Version(s("16")))])]);
    let env = im(&[("RTX_NODE_VERSION", "18")]);
    let ts = ToolsetBuilder::new()
        .with_args(&vec![arg("node", RuntimeArgVersion::Version(s("20")))])
        .build(&config, &env);
    let l = entry(&ts, "node").unwrap();
    assert_eq!(l.source, ToolSource::Argument);
    assert_eq!(l.versions, vec![ToolVersion::new(s("node"), ToolVersionType::Version(s("20")))]);
    assert_eq!(ts.versions.len(), 1);
}

#[test]
fn environment_beats_config_file() {
    let config = config_with(vec![config_file("/p/.tool-versions", &[("node", ToolVersionType::Version(s("16")))])]);
    let env = im(&[("RTX_NODE_VERSION", "18")]);
    let ts = ToolsetBuilder::new().build(&config, &env);
    let l = entry(&ts, "node").unwrap();
    assert_eq!(l.source, ToolSource::Environment(s("RTX_NODE_VERSION"), s("18")));
}

#[test]
fn nearer_config_file_wins() {
    let near = config_file("/home/u/proj/.tool-versions", &[("node", ToolVersionType::Version(s("18")))]);
    let home = config_file("/home/u/.tool-versions", &[("node", ToolVersionType::Version(s("16"))), ("python", ToolVersionType::Version(s("3.10")))]);
    let config = config_with(vec![near, home]);
    let ts = ToolsetBuilder::new().build(&config, &IndexMap::new());
    let node = entry(&ts, "node").unwrap();
    assert_eq!(node.source, ToolSource::ConfigFile(s("/home/u/proj/.tool-versions")));
    assert_eq!(node.versions, vec![ToolVersion::new(s("node"), ToolVersionType::Version(s("18")))]);
    let python = entry(&ts, "python").unwrap();
    assert_eq!(python.source, ToolSource::ConfigFile(s("/home/u/.tool-versions")));
}

#[test]
fn settings_merge_twice_equals_once() {
    let p = PartialSettings {
        experimental: Some(true),
        missing_runtime_behavior: Some(MissingRuntimeBehavior::Ignore),
        legacy_version_file: None,
        always_keep_download: None,
        verbose: Some(false),
        aliases: Some(nested(&[("node", &[("lts", "18")])])),
    };
    let mut once = SettingsBuilder::new();
    once.merge(&p);
    let mut twice = SettingsBuilder::new();
    twice.merge(&p);
    twice.merge(&p);
    assert_eq!(once, twice);
    assert_eq!(once.build(), twice.build());
}

#[test]
fn settings_merge_overrides_set_fields_only() {
    let mut b = SettingsBuilder::new();
    let mut p1 = empty_partial();
    p1.experimental = Some(true);
    p1.verbose = Some(true);
    b.merge(&p1);
    let mut p2 = empty_partial();
    p2.verbose = Some(false);
    b.merge(&p2);
    let st = b.build();
    assert!(st.experimental);
    assert!(!st.verbose);
    assert!(st.legacy_version_file);
    assert_eq!(st.missing_runtime_behavior, MissingRuntimeBehavior::Warn);
    assert!(!st.always_keep_download);
}

#[test]
fn settings_alias_beats_config_file_and_plugin() {
    let mut p = empty_partial();
    p.aliases = Some(nested(&[("node", &[("lts", "20")])]));
    let mut b = SettingsBuilder::new();
    b.merge(&p);
    let settings = b.build();
    let mut cf = config_file("/p/.rtx.toml", &[]);
    cf.aliases = nested(&[("node", &[("lts", "18"), ("old", "14")])]);
    let plugins = vec![(s("node"), Some(im(&[("lts", "16"), ("gallium", "16")])))];
    let aliases = load_aliases(&settings, &plugins, &files(vec![cf]));
    assert_eq!(
        alias_pairs(&aliases),
        vec![(s("node"), vec![(s("lts"), s("20")), (s("gallium"), s("16")), (s("old"), s("14"))])]
    );
}

#[test]
fn failing_plugin_does_not_stop_alias_resolution() {
    let settings = default_settings();
    let plugins = vec![
        (s("go"), Some(im(&[("stable", "1.21")]))),
        (s("node"), None),
        (s("python"), Some(im(&[("latest", "3.11")]))),
    ];
    let aliases = load_aliases(&settings, &plugins, &IndexMap::new());
    assert_eq!(
        alias_pairs(&aliases),
        vec![
            (s("go"), vec![(s("stable"), s("1.21"))]),
            (s("python"), vec![(s("latest"), s("3.11"))]),
        ]
    );
}

#[test]
fn already_parsed_files_are_not_parsed_again() {
    let candidates = vec![s("/a/.tool-versions"), s("/b/.tool-versions"), s("/c/.nvmrc")];
    let existing = files(vec![config_file("/b/.tool-versions", &[])]);
    assert_eq!(paths_to_parse(&candidates, &existing), vec![s("/a/.tool-versions"), s("/c/.nvmrc")]);
    let all_known = files(vec![
        config_file("/a/.tool-versions", &[]),
        config_file("/b/.tool-versions", &[]),
        config_file("/c/.nvmrc", &[]),
    ]);
    assert!(paths_to_parse(&candidates, &all_known).is_empty());
}

#[test]
fn files_are_kept_in_discovery_order_and_failures_dropped() {
    let candidates = vec![s("/a/x"), s("/b/x"), s("/c/x")];
    let reused = || {
        let mut f = config_file("/b/x", &[("node", ToolVersionType::Version(s("16")))]);
        f.env = im(&[("A", "1")]);
        f
    };
    let fresh = config_file("/b/x", &[("node", ToolVersionType::Version(s("99")))]);
    let r = load_all_config_files(&candidates, files(vec![reused()]), files(vec![config_file("/c/x", &[]), fresh]));
    let got: Vec<(&String, &ConfigFile)> = r.iter().collect();
    assert_eq!(got, vec![(&s("/b/x"), &reused()), (&s("/c/x"), &config_file("/c/x", &[]))]);
}

#[test]
fn environment_variable_pattern() {
    let mut ts = Toolset::empty();
    load_runtime_env(&mut ts, &im(&[("NODE_VERSION", "18"), ("RTX_NODE_VERSION", "18")]));
    assert_eq!(ts.versions.len(), 1);
    let l = entry(&ts, "node").unwrap();
    assert_eq!(l.source, ToolSource::Environment(s("RTX_NODE_VERSION"), s("18")));
    assert_eq!(l.versions, vec![ToolVersion::new(s("node"), ToolVersionType::Version(s("18")))]);
}

#[test]
fn environment_variable_without_prefix_is_ignored() {
    let mut ts = Toolset::empty();
    load_runtime_env(&mut ts, &im(&[("NODE_VERSION", "18"), ("RTX_VERSION", "1")]));
    assert!(ts.versions.is_empty());
}

#[test]
fn environment_variable_tool_name_is_lowercased() {
    assert_eq!(env_var_tool(&s("RTX_NODE_VERSION")), Some(s("node")));
    assert_eq!(env_var_tool(&s("RTX_Python_VERSION")), Some(s("python")));
    assert_eq!(env_var_tool(&s("NODE_VERSION")), None);
    assert_eq!(env_var_tool(&s("RTX_NODE_VERSIONS")), None);
    let ts = env_var_toolset(s("RTX_GO_VERSION"), s("1.21"), s("go"));
    assert_eq!(ts.versions.len(), 1);
}

#[test]
fn python_config_overridden_by_ref_argument() {
    let config = config_with(vec![config_file("/p/.tool-versions", &[("python", ToolVersionType::Version(s("3.11")))])]);
    let ts = ToolsetBuilder::new()
        .with_args(&vec![arg("python", RuntimeArgVersion::Ref(s("main")))])
        .build(&config, &IndexMap::new());
    assert_eq!(ts.versions.len(), 1);
    let l = entry(&ts, "python").unwrap();
    assert_eq!(l.source, ToolSource::Argument);
    assert_eq!(l.versions, vec![ToolVersion::new(s("python"), ToolVersionType::Ref(s("main")))]);
}

#[test]
fn go_from_environment_alone() {
    let config = config_with(vec![]);
    let ts = ToolsetBuilder::new().build(&config, &im(&[("RTX_GO_VERSION", "1.21")]));
    assert_eq!(ts.versions.len(), 1);
    let l = entry(&ts, "go").unwrap();
    assert_eq!(l.source, ToolSource::Environment(s("RTX_GO_VERSION"), s("1.21")));
    assert_eq!(l.versions, vec![ToolVersion::new(s("go"), ToolVersionType::Version(s("1.21")))]);
    assert_eq!(ts.plugins, vec![s("node"), s("python")]);
}

#[test]
fn unspecified_argument_keeps_lower_layers() {
    let mut ts = Toolset::new(ToolSource::ConfigFile(s("/p")));
    ts.add_version(s("node"), ToolVersion::new(s("node"), ToolVersionType::Version(s("16"))));
    let before = ts.clone();
    load_runtime_args(&mut ts, &vec![arg("node", RuntimeArgVersion::Unspecified)]);
    assert_eq!(ts.versions, before.versions);
}

#[test]
fn arguments_group_by_tool_in_first_seen_order() {
    let mut ts = Toolset::empty();
    load_runtime_args(
        &mut ts,
        &vec![
            arg("python", RuntimeArgVersion::Version(s("3.11"))),
            arg("node", RuntimeArgVersion::Path(s("/opt/node"))),
            arg("python", RuntimeArgVersion::Prefix(s("3.10"))),
        ],
    );
    assert_eq!(ts.versions.len(), 2);
    assert_eq!(ts.versions[0].0, s("python"));
    assert_eq!(
        ts.versions[0].1.versions,
        vec![
            ToolVersion::new(s("python"), ToolVersionType::Version(s("3.11"))),
            ToolVersion::new(s("python"), ToolVersionType::Prefix(s("3.10"))),
        ]
    );
    assert_eq!(ts.versions[1].0, s("node"));
}

#[test]
fn merge_replaces_whole_entry() {
    let mut a = Toolset::new(ToolSource::ConfigFile(s("/p")));
    a.add_version(s("node"), ToolVersion::new(s("node"), ToolVersionType::Version(s("16"))));
    a.add_version(s("node"), ToolVersion::new(s("node"), ToolVersionType::Version(s("14"))));
    a.add_version(s("go"), ToolVersion::new(s("go"), ToolVersionType::Version(s("1.20"))));
    let mut b = Toolset::new(ToolSource::Argument);
    b.add_version(s("node"), ToolVersion::new(s("node"), ToolVersionType::Version(s("20"))));
    a.merge(b);
    assert_eq!(a.versions.len(), 2);
    assert_eq!(a.versions[0].0, s("node"));
    assert_eq!(a.versions[0].1.source, ToolSource::Argument);
    assert_eq!(a.versions[0].1.versions.len(), 1);
    assert_eq!(a.versions[1].1.source, ToolSource::ConfigFile(s("/p")));
}

#[test]
fn candidate_names_are_reversed() {
    let legacy = im(&[(".nvmrc", "node"), (".python-version", "python")]);
    assert_eq!(
        candidate_filenames(&s(".rtx.toml"), &s(".tool-versions"), &legacy),
        vec![s(".python-version"), s(".nvmrc"), s(".tool-versions"), s(".rtx.toml")]
    );
}

#[test]
fn discovered_paths_are_deduplicated() {
    let found = vec![s("/h/u/p/.tool-versions"), s("/h/u/.tool-versions")];
    assert_eq!(
        discover_paths(found.clone(), Some(s("/h/u/.tool-versions"))),
        vec![s("/h/u/p/.tool-versions"), s("/h/u/.tool-versions")]
    );
    assert_eq!(discover_paths(vec![], Some(s("/h/.tool-versions"))), vec![s("/h/.tool-versions")]);
    assert_eq!(discover_paths(vec![], None), Vec::<String>::new());
}

#[test]
fn legacy_files_index() {
    let mut on = SettingsBuilder::new();
    let mut p = empty_partial();
    p.legacy_version_file = Some(false);
    let plugins = vec![
        (s("node"), Some(vec![s(".nvmrc"), s(".node-version")])),
        (s("ruby"), None),
        (s("nodenext"), Some(vec![s(".node-version")])),
    ];
    let idx = load_legacy_files(&on.build(), &plugins);
    assert_eq!(pairs(&idx), vec![(s(".nvmrc"), s("node")), (s(".node-version"), s("nodenext"))]);
    on.merge(&p);
    assert!(load_legacy_files(&on.build(), &plugins).is_empty());
}

#[test]
fn config_file_env_later_file_overrides() {
    let mut a = config_file("/a", &[]);
    a.env = im(&[("X", "1"), ("Y", "2")]);
    let mut b = config_file("/b", &[]);
    b.env = im(&[("X", "3"), ("Z", "4")]);
    assert_eq!(pairs(&load_env(&files(vec![a, b]))), vec![(s("X"), s("3")), (s("Y"), s("2")), (s("Z"), s("4"))]);
}

#[test]
fn plugins_sorted_by_name() {
    assert_eq!(
        load_plugins(vec![s("python"), s("go"), s("node"), s("deno")]),
        vec![s("deno"), s("go"), s("node"), s("python")]
    );
    assert!(load_plugins(vec![]).is_empty());
}

#[test]
fn legacy_file_names_pick_their_parser() {
    let legacy = im(&[(".nvmrc", "node"), (".python-version", "python")]);
    assert_eq!(parser_for(&s("/home/u/p/.nvmrc"), &legacy), Some(s("node")));
    assert_eq!(parser_for(&s(".python-version"), &legacy), Some(s("python")));
    assert_eq!(parser_for(&s("/home/u/p/.tool-versions"), &legacy), None);
    assert_eq!(parser_for(&s("/home/.nvmrc/x"), &legacy), None);
}
