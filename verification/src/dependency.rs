//! The desired state of one dependency entry, independent of document
//! formatting.

use vstd::prelude::*;
use vstd::string::*;
use crate::strutil::strip_metadata;
use crate::strutil::strs;
use crate::strutil::str_eq;
use crate::strutil::strip_plus;

verus! {

/// Dependency on a package of a registry.
#[derive(Debug, Clone, PartialEq, Eq)]
pub struct RegistrySource {
    /// Version requirement.
    pub version: String,
}

/// Dependency on a package in a local directory.
#[derive(Debug, Clone, PartialEq, Eq)]
pub struct PathSource {
    /// Local, absolute path, slash-separated.
    pub path: String,
    /// Version requirement for when the package is published.
    pub version: Option<String>,
}

/// Dependency on a package in a git repository.
#[derive(Debug, Clone, PartialEq, Eq)]
pub struct GitSource {
    /// Repository URL.
    pub git: String,
    /// Selected branch.
    pub branch: Option<String>,
    /// Selected tag.
    pub tag: Option<String>,
    /// Selected revision.
    pub rev: Option<String>,
}

/// Where a dependency comes from: exactly one kind is active at a time.
#[derive(Debug, Clone, PartialEq, Eq)]
pub enum Source {
    /// From a registry.
    Registry(RegistrySource),
    /// From a local path.
    Path(PathSource),
    /// From a git repository.
    Git(GitSource),
}

/// The desired state of one dependency entry.
///
/// `None` in an optional field means "leave the persisted field alone".
#[derive(Debug, Clone, PartialEq, Eq)]
pub struct Dependency {
    /// The package's canonical name.
    pub name: String,
    /// Whether the dependency is opted in by a feature flag.
    pub optional: Option<bool>,
    /// Features to add, in insertion order without duplicates, or `None`
    /// to keep the persisted set unchanged.
    pub features: Option<Vec<String>>,
    /// Whether default features are enabled.
    pub default_features: Option<bool>,
    /// Where the dependency comes from.
    pub source: Option<Source>,
    /// A registry other than the default.
    pub registry: Option<String>,
    /// The alias under which the entry is keyed, when it differs from
    /// `name`.
    pub rename: Option<String>,
    /// Features the resolved package exposes, with each one's component
    /// list; informational only and never persisted.
    pub available_features: Vec<(String, Vec<String>)>,
}

pub struct RegistrySourceView {
    pub version: Seq<char>,
}

pub struct PathSourceView {
    pub path: Seq<char>,
    pub version: Option<Seq<char>>,
}

pub struct GitSourceView {
    pub git: Seq<char>,
    pub branch: Option<Seq<char>>,
    pub tag: Option<Seq<char>>,
    pub rev: Option<Seq<char>>,
}

pub enum SourceView {
    Registry(RegistrySourceView),
    Path(PathSourceView),
    Git(GitSourceView),
}

/// The mathematical value of a `Dependency`: everything that can be
/// persisted.  The informational `available_features` cache is not part
/// of it.
pub struct DepView {
    pub name: Seq<char>,
    pub optional: Option<bool>,
    pub features: Option<Seq<Seq<char>>>,
    pub default_features: Option<bool>,
    pub source: Option<SourceView>,
    pub registry: Option<Seq<char>>,
    pub rename: Option<Seq<char>>,
}

/// View of an optional string.
pub open spec fn opt_str(o: Option<String>) -> Option<Seq<char>> {
    match o {
        Some(s) => Some(s@),
        None => None,
    }
}

impl View for RegistrySource {
    type V = RegistrySourceView;

    open spec fn view(&self) -> RegistrySourceView {
        RegistrySourceView { version: self.version@ }
    }
}

impl View for PathSource {
    type V = PathSourceView;

    open spec fn view(&self) -> PathSourceView {
        PathSourceView { path: self.path@, version: opt_str(self.version) }
    }
}

impl View for GitSource {
    type V = GitSourceView;

    open spec fn view(&self) -> GitSourceView {
        GitSourceView {
            git: self.git@,
            branch: opt_str(self.branch),
            tag: opt_str(self.tag),
            rev: opt_str(self.rev),
        }
    }
}

impl View for Source {
    type V = SourceView;

    open spec fn view(&self) -> SourceView {
        match self {
            Source::Registry(s) => SourceView::Registry(s@),
            Source::Path(s) => SourceView::Path(s@),
            Source::Git(s) => SourceView::Git(s@),
        }
    }
}

impl View for Dependency {
    type V = DepView;

    open spec fn view(&self) -> DepView {
        DepView {
            name: self.name@,
            optional: self.optional,
            features: match self.features {
                Some(fs) => Some(strs(fs@)),
                None => None,
            },
            default_features: self.default_features,
            source: match self.source {
                Some(s) => Some(s@),
                None => None,
            },
            registry: opt_str(self.registry),
            rename: opt_str(self.rename),
        }
    }
}

/// No string occurs twice.
pub open spec fn unique_strs(ss: Seq<Seq<char>>) -> bool {
    forall|i: int, j: int| 0 <= i < j < ss.len() ==> ss[i] != ss[j]
}

impl DepView {
    /// The key under which the entry is stored in its table.
    pub open spec fn toml_key(self) -> Seq<char> {
        match self.rename {
            Some(r) => r,
            None => self.name,
        }
    }

    /// The feature set, when given, holds no duplicates.
    pub open spec fn wf(self) -> bool {
        match self.features {
            Some(fs) => unique_strs(fs),
            None => true,
        }
    }
}

/// `acc` with `x` appended unless already present.
pub open spec fn push_unique(acc: Seq<Seq<char>>, x: Seq<char>) -> Seq<Seq<char>> {
    if acc.contains(x) {
        acc
    } else {
        acc.push(x)
    }
}

/// `acc` extended by the members of `xs` that it does not yet hold, in
/// order of first occurrence.
pub open spec fn union_features(acc: Seq<Seq<char>>, xs: Seq<Seq<char>>) -> Seq<Seq<char>>
    decreases xs.len(),
{
    if xs.len() == 0 {
        acc
    } else {
        union_features(push_unique(acc, xs[0]), xs.drop_first())
    }
}

pub proof fn lemma_union_unique(acc: Seq<Seq<char>>, xs: Seq<Seq<char>>)
    requires
        unique_strs(acc),
    ensures
        unique_strs(union_features(acc, xs)),
    decreases xs.len(),
{
    if xs.len() > 0 {
        let step = push_unique(acc, xs[0]);
        assert(unique_strs(step)) by {
            if !acc.contains(xs[0]) {
                assert forall|i: int, j: int| 0 <= i < j < step.len() implies step[i] != step[j] by {
                    if j == step.len() - 1 {
                        assert(step[i] == acc[i]);
                        assert(!acc.contains(step[j]));
                    }
                }
            }
        }
        lemma_union_unique(step, xs.drop_first());
    }
}

/// Whether one of the strings is `x`.
pub fn contains_str(v: &Vec<String>, x: &str) -> (r: bool)
    ensures
        r == strs(v@).contains(x@),
{
    let mut i: usize = 0;
    while i < v.len()
        invariant
            0 <= i <= v.len(),
            forall|j: int| 0 <= j < i ==> strs(v@)[j] != x@,
        decreases v.len() - i,
    {
        if str_eq(v[i].as_str(), x) {
            assert(strs(v@)[i as int] == x@);
            return true;
        }
        i = i + 1;
    }
    false
}

/// Extends `acc` by the members of `xs` it does not yet hold, keeping
/// order of first occurrence.
pub fn union_into(acc: &mut Vec<String>, xs: &Vec<String>)
    ensures
        strs(final(acc)@) == union_features(strs(old(acc)@), strs(xs@)),
{
    let ghost start = strs(old(acc)@);
    let ghost gxs = strs(xs@);
    let mut i: usize = 0;
    proof {
        assert(gxs.skip(0) =~= gxs);
    }
    while i < xs.len()
        invariant
            strs(xs@) == gxs,
            0 <= i <= xs.len(),
            union_features(start, gxs) == union_features(strs(acc@), gxs.skip(i as int)),
        decreases xs.len() - i,
    {
        proof {
            assert(gxs.skip(i as int)[0] == gxs[i as int]);
            assert(gxs.skip(i as int).drop_first() =~= gxs.skip(i as int + 1));
        }
        let present = contains_str(acc, xs[i].as_str());
        if !present {
            let ghost before = acc@;
            acc.push(xs[i].clone());
            proof {
                assert(acc@.drop_last() =~= before);
                assert(strs(acc@) =~= strs(before).push(gxs[i as int]));
            }
        }
        i = i + 1;
    }
    proof {
        assert(gxs.skip(gxs.len() as int).len() == 0);
    }
}

impl Dependency {
    /// A dependency with the given name and everything else left alone.
    pub fn new(name: &str) -> (r: Self)
        ensures
            r@ == (DepView {
                name: name@,
                optional: None,
                features: None,
                default_features: None,
                source: None,
                registry: None,
                rename: None,
            }),
            r@.wf(),
            r.available_features@.len() == 0,
    {
        Dependency {
            name: name.to_owned(),
            optional: None,
            features: None,
            default_features: None,
            source: None,
            registry: None,
            rename: None,
            available_features: Vec::new(),
        }
    }

    /// Replaces the source.
    pub fn set_source(self, source: Source) -> (r: Self)
        ensures
            r@ == (DepView { source: Some(source@), ..self@ }),
            r@.wf() == self@.wf(),
            r.available_features@ == self.available_features@,
    {
        Dependency { source: Some(source), ..self }
    }

    /// Removes the version requirement: a registry source disappears
    /// entirely, a path source loses its version, a git source is
    /// untouched.
    pub fn clear_version(self) -> (r: Self)
        ensures
            r@ == (DepView {
                source: match self@.source {
                    Some(SourceView::Registry(_)) => None,
                    Some(SourceView::Path(p)) => Some(
                        SourceView::Path(PathSourceView { version: None, ..p }),
                    ),
                    other => other,
                },
                ..self@
            }),
            r@.wf() == self@.wf(),
            r.available_features@ == self.available_features@,
    {
        match self.source {
            Some(Source::Registry(_)) => Dependency { source: None, ..self },
            Some(Source::Path(p)) => Dependency {
                source: Some(Source::Path(PathSource { version: None, ..p })),
                ..self
            },
            other => Dependency { source: other, ..self },
        }
    }

    /// Replaces the informational cache of the package's own features.
    pub fn set_available_features(self, available_features: Vec<(String, Vec<String>)>) -> (r:
        Self)
        ensures
            r@ == self@,
            r@.wf() == self@.wf(),
            r.available_features@ == available_features@,
    {
        Dependency { available_features, ..self }
    }

    /// Sets whether the dependency is optional.
    pub fn set_optional(self, opt: bool) -> (r: Self)
        ensures
            r@ == (DepView { optional: Some(opt), ..self@ }),
            r@.wf() == self@.wf(),
            r.available_features@ == self.available_features@,
    {
        Dependency { optional: Some(opt), ..self }
    }

    /// Replaces the feature set; duplicates collapse to their first
    /// occurrence.
    pub fn set_features(self, features: Vec<String>) -> (r: Self)
        ensures
            r@ == (DepView {
                features: Some(union_features(Seq::empty(), strs(features@))),
                ..self@
            }),
            r@.wf(),
            r.available_features@ == self.available_features@,
    {
        let mut fs: Vec<String> = Vec::new();
        union_into(&mut fs, &features);
        proof {
            lemma_union_unique(strs(Seq::empty()), strs(features@));
            assert(strs(Seq::<String>::empty()) =~= Seq::<Seq<char>>::empty());
        }
        Dependency { features: Some(fs), ..self }
    }

    /// Adds features to the set, starting from the empty set when none was
    /// given yet; duplicates collapse to their first occurrence.
    pub fn extend_features(self, features: Vec<String>) -> (r: Self)
        requires
            self@.wf(),
        ensures
            r@ == (DepView {
                features: Some(
                    union_features(
                        match self@.features {
                            Some(fs) => fs,
                            None => Seq::empty(),
                        },
                        strs(features@),
                    ),
                ),
                ..self@
            }),
            r@.wf(),
            r.available_features@ == self.available_features@,
    {
        let mut fs: Vec<String> = match self.features {
            Some(fs) => fs,
            None => Vec::new(),
        };
        proof {
            if self.features is None {
                assert(strs(fs@) =~= Seq::<Seq<char>>::empty());
            }
        }
        let ghost base = strs(fs@);
        union_into(&mut fs, &features);
        proof {
            lemma_union_unique(base, strs(features@));
        }
        Dependency {
            features: Some(fs),
            name: self.name,
            optional: self.optional,
            default_features: self.default_features,
            source: self.source,
            registry: self.registry,
            rename: self.rename,
            available_features: self.available_features,
        }
    }

    /// Sets whether default features are enabled.
    pub fn set_default_features(self, default_features: bool) -> (r: Self)
        ensures
            r@ == (DepView { default_features: Some(default_features), ..self@ }),
            r@.wf() == self@.wf(),
            r.available_features@ == self.available_features@,
    {
        Dependency { default_features: Some(default_features), ..self }
    }

    /// Sets the alias under which the entry is keyed.
    pub fn set_rename(self, rename: &str) -> (r: Self)
        ensures
            r@ == (DepView { rename: Some(rename@), ..self@ }),
            r@.wf() == self@.wf(),
            r.available_features@ == self.available_features@,
    {
        Dependency { rename: Some(rename.to_owned()), ..self }
    }

    /// Sets the registry.
    pub fn set_registry(self, registry: &str) -> (r: Self)
        ensures
            r@ == (DepView { registry: Some(registry@), ..self@ }),
            r@.wf() == self@.wf(),
            r.available_features@ == self.available_features@,
    {
        Dependency { registry: Some(registry.to_owned()), ..self }
    }

    /// The source, when one is set.
    pub fn source(&self) -> (r: Option<&Source>)
        ensures
            r is Some <==> self@.source is Some,
            r matches Some(s) ==> self@.source == Some(s@),
    {
        self.source.as_ref()
    }

    /// The version requirement: a registry source's requirement, a path
    /// source's optional requirement, nothing for a git source.
    pub fn version(&self) -> (r: Option<&str>)
        ensures
            (match r {
                Some(v) => self@.version() == Some(v@),
                None => self@.version() is None,
            }),
    {
        match &self.source {
            Some(Source::Registry(src)) => Some(src.version.as_str()),
            Some(Source::Path(src)) => match &src.version {
                Some(v) => Some(v.as_str()),
                None => None,
            },
            Some(Source::Git(_)) => None,
            None => None,
        }
    }

    /// The registry, when one is set.
    pub fn registry(&self) -> (r: Option<&str>)
        ensures
            (match r {
                Some(v) => self@.registry == Some(v@),
                None => self@.registry is None,
            }),
    {
        match &self.registry {
            Some(v) => Some(v.as_str()),
            None => None,
        }
    }

    /// The alias, when one is set.
    pub fn rename(&self) -> (r: Option<&str>)
        ensures
            (match r {
                Some(v) => self@.rename == Some(v@),
                None => self@.rename is None,
            }),
    {
        match &self.rename {
            Some(v) => Some(v.as_str()),
            None => None,
        }
    }

    /// Whether default features are enabled, when set.
    pub fn default_features(&self) -> (r: Option<bool>)
        ensures
            r == self@.default_features,
    {
        self.default_features
    }

    /// Whether the dependency is optional, when set.
    pub fn optional(&self) -> (r: Option<bool>)
        ensures
            r == self@.optional,
    {
        self.optional
    }

    /// The key under which the entry is stored: the alias when renamed,
    /// else the package name.
    pub fn toml_key(&self) -> (r: &str)
        ensures
            r@ == self@.toml_key(),
    {
        match &self.rename {
            Some(r) => r.as_str(),
            None => self.name.as_str(),
        }
    }
}

impl DepView {
    /// The version requirement the dependency asks for, if any.
    pub open spec fn version(self) -> Option<Seq<char>> {
        match self.source {
            Some(SourceView::Registry(s)) => Some(s.version),
            Some(SourceView::Path(p)) => p.version,
            _ => None,
        }
    }
}

impl Source {
    /// The registry source, when the source is one.
    pub fn as_registry(&self) -> (r: Option<&RegistrySource>)
        ensures
            (match r {
                Some(s) => self@ == SourceView::Registry(s@),
                None => !(self@ is Registry),
            }),
    {
        match self {
            Source::Registry(src) => Some(src),
            _ => None,
        }
    }

    /// The path source, when the source is one.
    pub fn as_path(&self) -> (r: Option<&PathSource>)
        ensures
            (match r {
                Some(s) => self@ == SourceView::Path(s@),
                None => !(self@ is Path),
            }),
    {
        match self {
            Source::Path(src) => Some(src),
            _ => None,
        }
    }

    /// The git source, when the source is one.
    pub fn as_git(&self) -> (r: Option<&GitSource>)
        ensures
            (match r {
                Some(s) => self@ == SourceView::Git(s@),
                None => !(self@ is Git),
            }),
    {
        match self {
            Source::Git(src) => Some(src),
            _ => None,
        }
    }
}

impl RegistrySource {
    /// A registry source with the given version requirement; semver build
    /// metadata after a `+` is never stored.
    pub fn new(version: &str) -> (r: Self)
        ensures
            r@.version == strip_metadata(version@),
    {
        RegistrySource { version: strip_plus(version) }
    }
}

impl PathSource {
    /// A path source for the given directory, with no version requirement.
    pub fn new(path: String) -> (r: Self)
        ensures
            r@ == (PathSourceView { path: path@, version: None }),
    {
        PathSource { path, version: None }
    }

    /// Sets the version requirement; semver build metadata after a `+` is
    /// never stored.
    pub fn set_version(self, version: &str) -> (r: Self)
        ensures
            r@ == (PathSourceView { version: Some(strip_metadata(version@)), ..self@ }),
    {
        PathSource { version: Some(strip_plus(version)), ..self }
    }
}


/// The reference a git source selects in its repository.
#[derive(Debug, Clone, PartialEq, Eq)]
pub enum GitReference {
    /// A named branch.
    Branch(String),
    /// A tag.
    Tag(String),
    /// A revision.
    Rev(String),
    /// The repository's default branch.
    DefaultBranch,
}

pub enum GitRefView {
    Branch(Seq<char>),
    Tag(Seq<char>),
    Rev(Seq<char>),
    DefaultBranch,
}

impl View for GitReference {
    type V = GitRefView;

    open spec fn view(&self) -> GitRefView {
        match self {
            GitReference::Branch(b) => GitRefView::Branch(b@),
            GitReference::Tag(t) => GitRefView::Tag(t@),
            GitReference::Rev(r) => GitRefView::Rev(r@),
            GitReference::DefaultBranch => GitRefView::DefaultBranch,
        }
    }
}

/// The reference a git source selects: a branch wins over a tag, a tag
/// over a revision, and with none selected the default branch is meant.
pub open spec fn git_ref_spec(g: GitSourceView) -> GitRefView {
    match g.branch {
        Some(b) => GitRefView::Branch(b),
        None => match g.tag {
            Some(t) => GitRefView::Tag(t),
            None => match g.rev {
                Some(r) => GitRefView::Rev(r),
                None => GitRefView::DefaultBranch,
            },
        },
    }
}

impl GitSource {
    /// A git source for the given repository, on its default branch.
    pub fn new(git: String) -> (r: Self)
        ensures
            r@ == (GitSourceView { git: git@, branch: None, tag: None, rev: None }),
    {
        GitSource { git, branch: None, tag: None, rev: None }
    }

    /// Selects a branch, clearing any tag or revision.
    pub fn set_branch(self, branch: &str) -> (r: Self)
        ensures
            r@ == (GitSourceView {
                git: self@.git,
                branch: Some(branch@),
                tag: None,
                rev: None,
            }),
    {
        GitSource { branch: Some(branch.to_owned()), tag: None, rev: None, ..self }
    }

    /// Selects a tag, clearing any branch or revision.
    pub fn set_tag(self, tag: &str) -> (r: Self)
        ensures
            r@ == (GitSourceView { git: self@.git, branch: None, tag: Some(tag@), rev: None }),
    {
        GitSource { branch: None, tag: Some(tag.to_owned()), rev: None, ..self }
    }

    /// Selects a revision, clearing any branch or tag.
    pub fn set_rev(self, rev: &str) -> (r: Self)
        ensures
            r@ == (GitSourceView { git: self@.git, branch: None, tag: None, rev: Some(rev@) }),
    {
        GitSource { branch: None, tag: None, rev: Some(rev.to_owned()), ..self }
    }

    /// The reference descriptor the source selects, for a collaborator that
    /// resolves it against the repository.
    pub fn git_ref(&self) -> (r: GitReference)
        ensures
            r@ == git_ref_spec(self@),
    {
        match &self.branch {
            Some(branch) => GitReference::Branch(branch.clone()),
            None => match &self.tag {
                Some(tag) => GitReference::Tag(tag.clone()),
                None => match &self.rev {
                    Some(rev) => GitReference::Rev(rev.clone()),
                    None => GitReference::DefaultBranch,
                },
            },
        }
    }
}

} // verus!
