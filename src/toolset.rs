//! A toolset: for each tool, the versions requested for it and where that
//! request came from. Merging one toolset into another replaces, tool by
//! tool, the whole entry of every tool that the incoming toolset declares.
use vstd::prelude::*;
use crate::entries::{has_key, index_of, keys_unique, lemma_lookup_at, lemma_put, lookup, put, put_all};

verus! {

/// How a requested version of a tool is written.
#[derive(Debug, Clone, PartialEq, Eq)]
pub enum ToolVersionType {
    Version(String),
    Ref(String),
    Path(String),
    Prefix(String),
}

/// A requested version, as plain text.
pub enum VersionView {
    Version(Seq<char>),
    Ref(Seq<char>),
    Path(Seq<char>),
    Prefix(Seq<char>),
}

impl View for ToolVersionType {
    type V = VersionView;

    open spec fn view(&self) -> VersionView {
        match self {
            ToolVersionType::Version(v) => VersionView::Version(v@),
            ToolVersionType::Ref(v) => VersionView::Ref(v@),
            ToolVersionType::Path(v) => VersionView::Path(v@),
            ToolVersionType::Prefix(v) => VersionView::Prefix(v@),
        }
    }
}

impl ToolVersionType {
    pub fn duplicate(&self) -> (r: Self)
        ensures
            r == *self,
    {
        match self {
            ToolVersionType::Version(v) => ToolVersionType::Version(v.clone()),
            ToolVersionType::Ref(v) => ToolVersionType::Ref(v.clone()),
            ToolVersionType::Path(v) => ToolVersionType::Path(v.clone()),
            ToolVersionType::Prefix(v) => ToolVersionType::Prefix(v.clone()),
        }
    }
}

/// A version requested for one tool.
#[derive(Debug, Clone, PartialEq, Eq)]
pub struct ToolVersion {
    pub plugin_name: String,
    pub version_type: ToolVersionType,
}

/// A requested version of a tool: the tool's name and the version.
pub type ToolVersionView = (Seq<char>, VersionView);

impl View for ToolVersion {
    type V = ToolVersionView;

    open spec fn view(&self) -> ToolVersionView {
        (self.plugin_name@, self.version_type@)
    }
}

impl ToolVersion {
    pub fn new(plugin_name: String, version_type: ToolVersionType) -> (r: Self)
        ensures
            r.plugin_name == plugin_name,
            r.version_type == version_type,
    {
        ToolVersion { plugin_name, version_type }
    }

    pub fn duplicate(&self) -> (r: Self)
        ensures
            r == *self,
    {
        ToolVersion { plugin_name: self.plugin_name.clone(), version_type: self.version_type.duplicate() }
    }
}

/// Where a group of requested versions came from.
#[derive(Debug, Clone, PartialEq, Eq)]
pub enum ToolSource {
    ConfigFile(String),
    Environment(String, String),
    Argument,
}

/// Where a group of requested versions came from, as plain text.
pub enum SourceView {
    ConfigFile(Seq<char>),
    Environment(Seq<char>, Seq<char>),
    Argument,
}

impl View for ToolSource {
    type V = SourceView;

    open spec fn view(&self) -> SourceView {
        match self {
            ToolSource::ConfigFile(p) => SourceView::ConfigFile(p@),
            ToolSource::Environment(k, v) => SourceView::Environment(k@, v@),
            ToolSource::Argument => SourceView::Argument,
        }
    }
}

impl ToolSource {
    pub fn duplicate(&self) -> (r: Self)
        ensures
            r == *self,
    {
        match self {
            ToolSource::ConfigFile(p) => ToolSource::ConfigFile(p.clone()),
            ToolSource::Environment(k, v) => ToolSource::Environment(k.clone(), v.clone()),
            ToolSource::Argument => ToolSource::Argument,
        }
    }
}

/// The versions requested for one tool, and their source.
#[derive(Debug, Clone, PartialEq, Eq)]
pub struct ToolVersionList {
    pub source: ToolSource,
    pub versions: Vec<ToolVersion>,
}

/// What a toolset holds for one tool: its source and its versions.
pub type ListView = (SourceView, Seq<ToolVersionView>);

pub open spec fn versions_view(vs: Seq<ToolVersion>) -> Seq<ToolVersionView> {
    vs.map_values(|v: ToolVersion| v@)
}

pub open spec fn list_view(l: ToolVersionList) -> ListView {
    (l.source@, versions_view(l.versions@))
}

/// The entry of a tool after one more version is added to it: a tool seen
/// before keeps its source; a new one takes the toolset's source.
pub open spec fn appended(prev: Option<ListView>, source: SourceView, v: ToolVersionView) -> ListView {
    match prev {
        Some(l) => (l.0, l.1.push(v)),
        None => (source, seq![v]),
    }
}

pub open spec fn pairs_view(s: Seq<(String, ToolVersionList)>) -> Seq<(Seq<char>, ListView)> {
    s.map_values(|p: (String, ToolVersionList)| (p.0@, list_view(p.1)))
}

/// The entries after adding each of `vs` in turn, a new tool taking
/// `source`.
pub open spec fn add_all(
    s: Seq<(Seq<char>, ListView)>,
    source: SourceView,
    vs: Seq<ToolVersionView>,
) -> Seq<(Seq<char>, ListView)>
    decreases vs.len(),
{
    if vs.len() == 0 {
        s
    } else {
        let p = add_all(s, source, vs.drop_last());
        let v = vs.last();
        put(p, v.0, appended(lookup(p, v.0), source, v))
    }
}

pub proof fn lemma_add_all_unique(s: Seq<(Seq<char>, ListView)>, source: SourceView, vs: Seq<ToolVersionView>)
    requires
        keys_unique(s),
    ensures
        keys_unique(add_all(s, source, vs)),
    decreases vs.len(),
{
    if vs.len() > 0 {
        lemma_add_all_unique(s, source, vs.drop_last());
        let p = add_all(s, source, vs.drop_last());
        lemma_put(p, vs.last().0, appended(lookup(p, vs.last().0), source, vs.last()));
    }
}

/// Requested versions per tool, in the order the tools were first declared.
#[derive(Debug, Clone, PartialEq, Eq)]
pub struct Toolset {
    pub versions: Vec<(String, ToolVersionList)>,
    pub source: Option<ToolSource>,
    pub plugins: Vec<String>,
}

impl Toolset {
    /// The toolset as an ordered map from tool name to its entry.
    pub open spec fn entries(&self) -> Seq<(Seq<char>, ListView)> {
        pairs_view(self.versions@)
    }

    pub open spec fn wf(&self) -> bool {
        keys_unique(self.entries())
    }

    /// An empty toolset with no source.
    pub fn empty() -> (r: Self)
        ensures
            r.wf(),
            r.entries() == Seq::<(Seq<char>, ListView)>::empty(),
            r.source is None,
            r.plugins@.len() == 0,
    {
        let r = Toolset { versions: Vec::new(), source: None, plugins: Vec::new() };
        assert(r.entries() =~= Seq::empty());
        r
    }

    /// An empty toolset whose versions will be tagged with `source`.
    pub fn new(source: ToolSource) -> (r: Self)
        ensures
            r.wf(),
            r.entries() == Seq::<(Seq<char>, ListView)>::empty(),
            r.source == Some(source),
            r.plugins@.len() == 0,
    {
        let r = Toolset { versions: Vec::new(), source: Some(source), plugins: Vec::new() };
        assert(r.entries() =~= Seq::empty());
        r
    }

    pub fn with_plugins(self, plugins: Vec<String>) -> (r: Self)
        ensures
            r.versions == self.versions,
            r.source == self.source,
            r.plugins == plugins,
    {
        Toolset { versions: self.versions, source: self.source, plugins }
    }

    /// Position of the entry of `name`, if it has one.
    pub fn find(&self, name: &String) -> (r: Option<usize>)
        ensures
            r is None <==> !has_key(self.entries(), name@),
            r matches Some(i) ==> i < self.entries().len() && self.entries()[i as int].0 == name@,
    {
        let mut i: usize = 0;
        while i < self.versions.len()
            invariant
                0 <= i <= self.versions.len(),
                forall|j: int| 0 <= j < i ==> #[trigger] self.entries()[j].0 != name@,
            decreases self.versions.len() - i,
        {
            if self.versions[i].0 == *name {
                assert(self.entries()[i as int].0 == name@);
                return Some(i);
            }
            i += 1;
        }
        proof {
            if has_key(self.entries(), name@) {
                let j = index_of(self.entries(), name@);
                assert(self.entries()[j].0 == name@);
            }
        }
        None
    }

    /// Set the entry of `name` to `list`, in place if it has one.
    fn put_list(&mut self, name: String, list: ToolVersionList)
        requires
            old(self).wf(),
        ensures
            final(self).wf(),
            final(self).entries() == put(old(self).entries(), name@, list_view(list)),
            final(self).source == old(self).source,
            final(self).plugins == old(self).plugins,
    {
        let ghost s = self.entries();
        proof {
            lemma_put(s, name@, list_view(list));
        }
        match self.find(&name) {
            Some(i) => {
                proof {
                    lemma_lookup_at(s, i as int);
                }
                let _ = self.versions.remove(i);
                self.versions.insert(i, (name, list));
                assert(self.entries() =~= put(s, name@, list_view(list)));
            },
            None => {
                self.versions.push((name, list));
                assert(self.entries() =~= put(s, name@, list_view(list)));
            },
        }
    }

    /// Add one requested version of `plugin`.
    pub fn add_version(&mut self, plugin: String, version: ToolVersion)
        requires
            old(self).wf(),
            old(self).source is Some,
        ensures
            final(self).wf(),
            final(self).entries() == put(
                old(self).entries(),
                plugin@,
                appended(lookup(old(self).entries(), plugin@), old(self).source->0@, version@),
            ),
            final(self).source == old(self).source,
            final(self).plugins == old(self).plugins,
    {
        let ghost s = self.entries();
        match self.find(&plugin) {
            Some(i) => {
                proof {
                    lemma_lookup_at(s, i as int);
                }
                let (name, mut list) = self.versions.remove(i);
                assert(self.versions@ =~= old(self).versions@.remove(i as int));
                let ghost prev = list;
                list.versions.push(version);
                assert(versions_view(list.versions@) =~= versions_view(prev.versions@).push(version@));
                self.versions.insert(i, (name, list));
                proof {
                    lemma_put(s, plugin@, list_view(list));
                }
                assert(self.entries() =~= put(s, plugin@, list_view(list)));
            },
            None => {
                let source = match &self.source {
                    Some(src) => src.duplicate(),
                    None => ToolSource::Argument,
                };
                let mut vs: Vec<ToolVersion> = Vec::new();
                vs.push(version);
                let list = ToolVersionList { source, versions: vs };
                assert(versions_view(list.versions@) =~= seq![version@]);
                self.put_list(plugin, list);
            },
        }
    }

    /// Add each of `vs` in turn, each under its own tool name.
    pub fn add_versions(&mut self, vs: &Vec<ToolVersion>)
        requires
            old(self).wf(),
            old(self).source is Some,
        ensures
            final(self).wf(),
            final(self).entries() == add_all(old(self).entries(), old(self).source->0@, versions_view(vs@)),
            final(self).source == old(self).source,
            final(self).plugins == old(self).plugins,
    {
        let mut i: usize = 0;
        while i < vs.len()
            invariant
                0 <= i <= vs.len(),
                self.wf(),
                self.source is Some,
                self.source == old(self).source,
                self.plugins == old(self).plugins,
                self.entries() == add_all(old(self).entries(), old(self).source->0@, versions_view(vs@.subrange(0, i as int))),
            decreases vs.len() - i,
        {
            let v = vs[i].duplicate();
            assert(versions_view(vs@.subrange(0, i + 1)).drop_last() =~= versions_view(vs@.subrange(0, i as int)));
            assert(versions_view(vs@.subrange(0, i + 1)).last() == v@);
            self.add_version(v.plugin_name.clone(), v);
            i += 1;
        }
        assert(vs@.subrange(0, i as int) =~= vs@);
    }

    /// Merge `other` over this toolset: each tool that `other` declares
    /// takes `other`'s entry whole; other tools keep theirs.
    pub fn merge(&mut self, other: Toolset)
        requires
            old(self).wf(),
            other.wf(),
        ensures
            final(self).wf(),
            final(self).entries() == put_all(old(self).entries(), other.entries()),
            final(self).source == (if other.source is Some {
                other.source
            } else {
                old(self).source
            }),
            final(self).plugins == old(self).plugins,
    {
        let ghost t = other.entries();
        let ghost n: int = other.versions@.len() as int;
        let mut rest = other.versions;
        let ghost k: int = 0;
        while rest.len() > 0
            invariant
                0 <= k <= n,
                t.len() == n,
                pairs_view(rest@) == t.subrange(k, n),
                self.wf(),
                self.entries() == put_all(old(self).entries(), t.subrange(0, k)),
                self.source == old(self).source,
                self.plugins == old(self).plugins,
            decreases rest.len(),
        {
            let ghost before = rest@;
            assert(pairs_view(before).len() == before.len());
            assert(k < n);
            assert(t.subrange(k, n)[0] == t[k]);
            assert(pairs_view(before)[0] == t[k]);
            let (name, list) = rest.remove(0);
            assert(t[k] == (name@, list_view(list)));
            self.put_list(name, list);
            assert(t.subrange(0, k + 1).drop_last() =~= t.subrange(0, k));
            assert(t.subrange(0, k + 1).last() == t[k]);
            proof {
                k = k + 1;
            }
            assert forall|j: int| 0 <= j < rest@.len() implies #[trigger] pairs_view(rest@)[j]
                == t.subrange(k, n)[j] by {
                assert(rest@[j] == before[j + 1]);
                assert(pairs_view(before)[j + 1] == t.subrange(k - 1, n)[j + 1]);
            }
            assert(pairs_view(rest@) =~= t.subrange(k, n));
        }
        assert(t.subrange(0, k) =~= t);
        if other.source.is_some() {
            self.source = other.source;
        }
    }
}

} // verus!
