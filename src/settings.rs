//! Global settings, accumulated from partial settings where every field that
//! a partial sets overrides the accumulated value.
use indexmap::IndexMap;
use vstd::prelude::*;
use crate::ordmap::{nested_clone, nested_entries, nested_new};

verus! {

/// Aliases per tool: tool name, then `(alias, version)` pairs.
pub type AliasTable = IndexMap<String, IndexMap<String, String>>;

/// What to do when a requested version is not installed.
#[derive(Debug, Clone, Copy, PartialEq, Eq, Structural)]
pub enum MissingRuntimeBehavior {
    AutoInstall,
    Prompt,
    Warn,
    Ignore,
}

/// Settings where every field may be left unset.
#[derive(Debug, PartialEq, Eq)]
pub struct PartialSettings {
    pub experimental: Option<bool>,
    pub missing_runtime_behavior: Option<MissingRuntimeBehavior>,
    pub legacy_version_file: Option<bool>,
    pub always_keep_download: Option<bool>,
    pub verbose: Option<bool>,
    pub aliases: Option<AliasTable>,
}

/// Settings with every field decided.
#[derive(Debug, PartialEq, Eq)]
pub struct Settings {
    pub experimental: bool,
    pub missing_runtime_behavior: MissingRuntimeBehavior,
    pub legacy_version_file: bool,
    pub always_keep_download: bool,
    pub verbose: bool,
    pub aliases: AliasTable,
}

pub open spec fn or_else<T>(over: Option<T>, base: Option<T>) -> Option<T> {
    if over is Some {
        over
    } else {
        base
    }
}

/// Partial settings as plain values.
pub struct PartialSettingsView {
    pub experimental: Option<bool>,
    pub missing_runtime_behavior: Option<MissingRuntimeBehavior>,
    pub legacy_version_file: Option<bool>,
    pub always_keep_download: Option<bool>,
    pub verbose: Option<bool>,
    pub aliases: Option<Seq<(Seq<char>, Seq<(Seq<char>, Seq<char>)>)>>,
}

impl View for PartialSettings {
    type V = PartialSettingsView;

    open spec fn view(&self) -> PartialSettingsView {
        PartialSettingsView {
            experimental: self.experimental,
            missing_runtime_behavior: self.missing_runtime_behavior,
            legacy_version_file: self.legacy_version_file,
            always_keep_download: self.always_keep_download,
            verbose: self.verbose,
            aliases: match self.aliases {
                Some(a) => Some(alias_table_view(a)),
                None => None,
            },
        }
    }
}

/// `base` with every field that `p` sets taken from `p`.
pub open spec fn merged(base: PartialSettingsView, p: PartialSettingsView) -> PartialSettingsView {
    PartialSettingsView {
        experimental: or_else(p.experimental, base.experimental),
        missing_runtime_behavior: or_else(p.missing_runtime_behavior, base.missing_runtime_behavior),
        legacy_version_file: or_else(p.legacy_version_file, base.legacy_version_file),
        always_keep_download: or_else(p.always_keep_download, base.always_keep_download),
        verbose: or_else(p.verbose, base.verbose),
        aliases: or_else(p.aliases, base.aliases),
    }
}

pub open spec fn unwrap_or<T>(o: Option<T>, d: T) -> T {
    match o {
        Some(v) => v,
        None => d,
    }
}

/// A table of aliases as plain text.
pub open spec fn alias_table_view(t: AliasTable) -> Seq<(Seq<char>, Seq<(Seq<char>, Seq<char>)>)> {
    nested_entries(t)
}

/// `s` is what `p` gives, each field that `p` leaves unset at its default
/// (experimental off, warn on a missing runtime, legacy version files read,
/// downloads not kept, quiet, no aliases); the aliases equal as text.
pub open spec fn built_from(s: Settings, p: PartialSettingsView) -> bool {
    &&& s.experimental == unwrap_or(p.experimental, false)
    &&& s.missing_runtime_behavior == unwrap_or(p.missing_runtime_behavior, MissingRuntimeBehavior::Warn)
    &&& s.legacy_version_file == unwrap_or(p.legacy_version_file, true)
    &&& s.always_keep_download == unwrap_or(p.always_keep_download, false)
    &&& s.verbose == unwrap_or(p.verbose, false)
    &&& alias_table_view(s.aliases) == unwrap_or(p.aliases, Seq::empty())
}

/// Merging the same partial settings twice gives what merging it once gives.
pub proof fn lemma_merge_idempotent(base: PartialSettingsView, p: PartialSettingsView)
    ensures
        merged(merged(base, p), p) == merged(base, p),
{
}

/// Accumulates partial settings.
#[derive(Debug, PartialEq, Eq)]
pub struct SettingsBuilder {
    pub partial: PartialSettings,
}

impl SettingsBuilder {
    /// A builder with no field set.
    pub fn new() -> (r: Self)
        ensures
            r.partial.experimental is None,
            r.partial.missing_runtime_behavior is None,
            r.partial.legacy_version_file is None,
            r.partial.always_keep_download is None,
            r.partial.verbose is None,
            r.partial.aliases is None,
    {
        SettingsBuilder {
            partial: PartialSettings {
                experimental: None,
                missing_runtime_behavior: None,
                legacy_version_file: None,
                always_keep_download: None,
                verbose: None,
                aliases: None,
            },
        }
    }

    /// Take every field that `p` sets from `p`.
    pub fn merge(&mut self, p: &PartialSettings)
        ensures
            final(self).partial@ == merged(old(self).partial@, p@),
    {
        if p.experimental.is_some() {
            self.partial.experimental = p.experimental;
        }
        if p.missing_runtime_behavior.is_some() {
            self.partial.missing_runtime_behavior = p.missing_runtime_behavior;
        }
        if p.legacy_version_file.is_some() {
            self.partial.legacy_version_file = p.legacy_version_file;
        }
        if p.always_keep_download.is_some() {
            self.partial.always_keep_download = p.always_keep_download;
        }
        if p.verbose.is_some() {
            self.partial.verbose = p.verbose;
        }
        match &p.aliases {
            Some(a) => {
                self.partial.aliases = Some(nested_clone(a));
            },
            None => {},
        }
    }

    /// The settings accumulated so far, each unset field at its default.
    pub fn build(&self) -> (r: Settings)
        ensures
            built_from(r, self.partial@),
    {
        let p = &self.partial;
        let aliases = match &p.aliases {
            Some(a) => nested_clone(a),
            None => nested_new(),
        };
        Settings {
            experimental: match p.experimental {
                Some(b) => b,
                None => false,
            },
            missing_runtime_behavior: match p.missing_runtime_behavior {
                Some(b) => b,
                None => MissingRuntimeBehavior::Warn,
            },
            legacy_version_file: match p.legacy_version_file {
                Some(b) => b,
                None => true,
            },
            always_keep_download: match p.always_keep_download {
                Some(b) => b,
                None => false,
            },
            verbose: match p.verbose {
                Some(b) => b,
                None => false,
            },
            aliases,
        }
    }
}

} // verus!
