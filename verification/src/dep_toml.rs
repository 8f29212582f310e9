//! The bidirectional mapping between a `Dependency` and a document node.
//!
//! A bare registry requirement is persisted as a plain string (the short
//! form); anything else becomes an inline table whose keys follow a fixed
//! precedence: source fields, `registry`, `package`, `default-features`,
//! `features`, `optional`.

use vstd::prelude::*;
use vstd::string::*;
use crate::dependency::Dependency;
use crate::dependency::DepView;
use crate::dependency::GitSourceView;
use crate::dependency::PathSourceView;
use crate::dependency::RegistrySourceView;
use crate::dependency::RegistrySource;
use crate::dependency::Source;
use crate::dependency::union_into;
use crate::dependency::SourceView;
use crate::dependency::union_features;
use crate::errors::Error;
use crate::errors::ErrView;
use crate::errors::invalid_type;
use crate::paths::components;
use crate::paths::diff_comps;
use crate::paths::is_absolute;
use crate::paths::path_field;
use crate::paths::path_field_spec;
use crate::paths::path_join;
use crate::paths::join_path;
use crate::strutil::strip_metadata;
use crate::strutil::strs;
use crate::tree::item_model;
use crate::tree::item_as_bool;
use crate::tree::item_as_str;
use crate::tree::item_array_kind_name;
use crate::tree::item_array_len;
use crate::tree::item_array_str;
use crate::tree::item_is_table_like;
use crate::tree::item_kind_name;
use crate::tree::item_table_get;
use crate::tree::mk_bool_item;
use crate::tree::mk_inline_table_item;
use crate::tree::mk_str_array_item;
use crate::tree::mk_str_item;
use crate::tree_model::Toml;
use crate::tree_model::lemma_has_iff_key;
use crate::tree_model::lemma_set_absent;
use crate::tree_model::str_arr;
use crate::manifest::str_or_1_len;
use crate::tree_model::tl_has;
use crate::tree_model::tl_remove;
use crate::tree_model::tl_set;
use crate::tree_model::tl_lookup;
use crate::tree_model::tl_unique;
use crate::tree_model::tl_vals_wf;
use toml_edit::Item;

verus! {

/// Whether the persisted form carries a `version` key.
pub open spec fn has_version_key(d: DepView) -> bool {
    match d.source {
        Some(SourceView::Registry(_)) => true,
        Some(SourceView::Path(p)) => p.version is Some,
        _ => false,
    }
}

/// Whether the dependency is persisted as a plain version string: a bare
/// registry requirement with none of the optional fields set.
pub open spec fn short_form(d: DepView) -> bool {
    &&& d.optional is None
    &&& d.features is None
    &&& d.default_features is None
    &&& d.registry is None
    &&& d.rename is None
    &&& d.source matches Some(SourceView::Registry(_))
}

/// One string entry when the value is given, nothing otherwise.
pub open spec fn opt_entry(k: Seq<char>, v: Option<Seq<char>>) -> Seq<(Seq<char>, Toml)> {
    match v {
        Some(s) => seq![(k, Toml::Str(s))],
        None => seq![],
    }
}

/// The source's entries: `version` for a registry requirement;
/// `version`/`path` for a path; `git` with its selected reference for a
/// repository.
pub open spec fn source_entries(d: DepView, root: Seq<char>) -> Seq<(Seq<char>, Toml)> {
    match d.source {
        Some(SourceView::Registry(s)) => seq![("version"@, Toml::Str(s.version))],
        Some(SourceView::Path(p)) => opt_entry("version"@, p.version) + seq![
            ("path"@, Toml::Str(path_field_spec(root, p.path))),
        ],
        Some(SourceView::Git(g)) => seq![("git"@, Toml::Str(g.git))] + opt_entry(
            "branch"@,
            g.branch,
        ) + opt_entry("tag"@, g.tag) + opt_entry("rev"@, g.rev),
        None => seq![],
    }
}

/// `registry` is persisted only beside a `version` key.
pub open spec fn registry_entry(d: DepView) -> Seq<(Seq<char>, Toml)> {
    if has_version_key(d) && d.registry is Some {
        seq![("registry"@, Toml::Str(d.registry->Some_0))]
    } else {
        seq![]
    }
}

/// `package` carries the canonical name when the entry is keyed by an
/// alias.
pub open spec fn package_entry(d: DepView) -> Seq<(Seq<char>, Toml)> {
    if d.rename is Some {
        seq![("package"@, Toml::Str(d.name))]
    } else {
        seq![]
    }
}

pub open spec fn default_features_entry(d: DepView) -> Seq<(Seq<char>, Toml)> {
    match d.default_features {
        Some(b) => seq![("default-features"@, Toml::Bool(b))],
        None => seq![],
    }
}

pub open spec fn features_entry(d: DepView) -> Seq<(Seq<char>, Toml)> {
    match d.features {
        Some(fs) => seq![("features"@, str_arr(fs))],
        None => seq![],
    }
}

pub open spec fn optional_entry(d: DepView) -> Seq<(Seq<char>, Toml)> {
    match d.optional {
        Some(b) => seq![("optional"@, Toml::Bool(b))],
        None => seq![],
    }
}

/// The inline table persisted for a dependency that is not in short form,
/// with its keys in the fixed precedence order.
pub open spec fn dep_table_entries(d: DepView, root: Seq<char>) -> Seq<(Seq<char>, Toml)> {
    source_entries(d, root) + registry_entry(d) + package_entry(d) + default_features_entry(d)
        + features_entry(d) + optional_entry(d)
}

/// The node persisted for a dependency: the version string in short form,
/// an inline table otherwise.
pub open spec fn dep_to_toml_spec(d: DepView, root: Seq<char>) -> Toml {
    if short_form(d) {
        Toml::Str(d.source->Some_0->Registry_0.version)
    } else {
        Toml::Inline(dep_table_entries(d, root))
    }
}

/// Whether the relative form of a path source is defined against `root`.
pub open spec fn path_diff_defined(d: DepView, root: Seq<char>) -> bool {
    match d.source {
        Some(SourceView::Path(p)) => diff_comps(components(p.path), components(root)) is Some,
        _ => true,
    }
}

/// The fixed key names of a dependency table are pairwise distinct.
pub proof fn lemma_key_literals_distinct()
    ensures
        "version"@ != "path"@,
        "version"@ != "git"@,
        "version"@ != "branch"@,
        "version"@ != "tag"@,
        "version"@ != "rev"@,
        "version"@ != "registry"@,
        "version"@ != "package"@,
        "version"@ != "default-features"@,
        "version"@ != "features"@,
        "version"@ != "optional"@,
        "path"@ != "git"@,
        "path"@ != "branch"@,
        "path"@ != "tag"@,
        "path"@ != "rev"@,
        "path"@ != "registry"@,
        "path"@ != "package"@,
        "path"@ != "default-features"@,
        "path"@ != "features"@,
        "path"@ != "optional"@,
        "git"@ != "branch"@,
        "git"@ != "tag"@,
        "git"@ != "rev"@,
        "git"@ != "registry"@,
        "git"@ != "package"@,
        "git"@ != "default-features"@,
        "git"@ != "features"@,
        "git"@ != "optional"@,
        "branch"@ != "tag"@,
        "branch"@ != "rev"@,
        "branch"@ != "registry"@,
        "branch"@ != "package"@,
        "branch"@ != "default-features"@,
        "branch"@ != "features"@,
        "branch"@ != "optional"@,
        "tag"@ != "rev"@,
        "tag"@ != "registry"@,
        "tag"@ != "package"@,
        "tag"@ != "default-features"@,
        "tag"@ != "features"@,
        "tag"@ != "optional"@,
        "rev"@ != "registry"@,
        "rev"@ != "package"@,
        "rev"@ != "default-features"@,
        "rev"@ != "features"@,
        "rev"@ != "optional"@,
        "registry"@ != "package"@,
        "registry"@ != "default-features"@,
        "registry"@ != "features"@,
        "registry"@ != "optional"@,
        "package"@ != "default-features"@,
        "package"@ != "features"@,
        "package"@ != "optional"@,
        "default-features"@ != "features"@,
        "default-features"@ != "optional"@,
        "features"@ != "optional"@,
{
    reveal_strlit("version");
    reveal_strlit("path");
    reveal_strlit("git");
    reveal_strlit("branch");
    reveal_strlit("tag");
    reveal_strlit("rev");
    reveal_strlit("registry");
    reveal_strlit("package");
    reveal_strlit("default-features");
    reveal_strlit("features");
    reveal_strlit("optional");
    assert("version"@.len() == 7);
    assert("path"@.len() == 4);
    assert("git"@.len() == 3);
    assert("branch"@.len() == 6);
    assert("tag"@.len() == 3);
    assert("rev"@.len() == 3);
    assert("registry"@.len() == 8);
    assert("package"@.len() == 7);
    assert("default-features"@.len() == 16);
    assert("features"@.len() == 8);
    assert("optional"@.len() == 8);
    assert("version"@[0] == 'v');
    assert("path"@[0] == 'p');
    assert("git"@[0] == 'g');
    assert("branch"@[0] == 'b');
    assert("tag"@[0] == 't');
    assert("rev"@[0] == 'r');
    assert("registry"@[0] == 'r');
    assert("package"@[0] == 'p');
    assert("default-features"@[0] == 'd');
    assert("features"@[0] == 'f');
    assert("optional"@[0] == 'o');
}


/// Shorthand for the wrong-shape error of one field.
pub open spec fn inv_type(dep: Seq<char>, key: Seq<char>, actual: Seq<char>, expected: Seq<char>) -> ErrView {
    ErrView::InvalidType { dep, key, actual, expected }
}

/// Reads an optional string field: absent is fine, any non-string shape is
/// a typed error naming the field.
pub open spec fn read_opt_str_key(
    dep_key: Seq<char>,
    es: Seq<(Seq<char>, Toml)>,
    k: Seq<char>,
) -> Result<Option<Seq<char>>, ErrView> {
    match tl_lookup(es, k) {
        None => Ok(None),
        Some(Toml::Str(s)) => Ok(Some(s)),
        Some(other) => Err(inv_type(dep_key, k, other.kind_name(), "string"@)),
    }
}

/// Reads an optional boolean field: absent is fine, any non-boolean shape
/// is a typed error naming the field.
pub open spec fn read_opt_bool_key(
    dep_key: Seq<char>,
    es: Seq<(Seq<char>, Toml)>,
    k: Seq<char>,
) -> Result<Option<bool>, ErrView> {
    match tl_lookup(es, k) {
        None => Ok(None),
        Some(Toml::Bool(b)) => Ok(Some(b)),
        Some(other) => Err(inv_type(dep_key, k, other.kind_name(), "boolean"@)),
    }
}

/// A `package` field renames the entry: the canonical name comes from the
/// field and the table key becomes the alias.
pub open spec fn read_name_rename(key: Seq<char>, es: Seq<(Seq<char>, Toml)>) -> Result<
    (Seq<char>, Option<Seq<char>>),
    ErrView,
> {
    match tl_lookup(es, "package"@) {
        None => Ok((key, None)),
        Some(Toml::Str(n)) => Ok((n, Some(key))),
        Some(other) => Err(inv_type(key, "package"@, other.kind_name(), "string"@)),
    }
}

/// Reads the source from a table: `git` wins over `path` wins over
/// `version`; a table with none of the three has no recognizable source.
/// Among `branch`, `tag` and `rev` the last one present wins.
pub open spec fn read_source(root: Seq<char>, key: Seq<char>, es: Seq<(Seq<char>, Toml)>) -> Result<
    SourceView,
    ErrView,
> {
    if tl_has(es, "git"@) {
        match tl_lookup(es, "git"@)->Some_0 {
            Toml::Str(url) => match read_opt_str_key(key, es, "branch"@) {
                Err(e) => Err(e),
                Ok(branch) => match read_opt_str_key(key, es, "tag"@) {
                    Err(e) => Err(e),
                    Ok(tag) => match read_opt_str_key(key, es, "rev"@) {
                        Err(e) => Err(e),
                        Ok(rev) => Ok(
                            SourceView::Git(
                                GitSourceView {
                                    git: url,
                                    branch: if tag is None && rev is None {
                                        branch
                                    } else {
                                        None
                                    },
                                    tag: if rev is None {
                                        tag
                                    } else {
                                        None
                                    },
                                    rev,
                                },
                            ),
                        ),
                    },
                },
            },
            other => Err(inv_type(key, "git"@, other.kind_name(), "string"@)),
        }
    } else if tl_has(es, "path"@) {
        match tl_lookup(es, "path"@)->Some_0 {
            Toml::Str(p) => match tl_lookup(es, "version"@) {
                None => Ok(
                    SourceView::Path(PathSourceView { path: path_join(root, p), version: None }),
                ),
                Some(Toml::Str(v)) => Ok(
                    SourceView::Path(
                        PathSourceView {
                            path: path_join(root, p),
                            version: Some(strip_metadata(v)),
                        },
                    ),
                ),
                Some(other) => Err(inv_type(key, "version"@, other.kind_name(), "string"@)),
            },
            other => Err(inv_type(key, "path"@, other.kind_name(), "string"@)),
        }
    } else if tl_has(es, "version"@) {
        match tl_lookup(es, "version"@)->Some_0 {
            Toml::Str(v) => Ok(
                SourceView::Registry(RegistrySourceView { version: strip_metadata(v) }),
            ),
            other => Err(inv_type(key, "version"@, other.kind_name(), "string"@)),
        }
    } else {
        Err(ErrView::UnrecognizedSource { key })
    }
}

/// Index of the first element that is not a string; the length when all
/// are.
pub open spec fn first_non_str(vs: Seq<Toml>) -> int
    decreases vs.len(),
{
    if vs.len() == 0 {
        0
    } else if !(vs[0] is Str) {
        0
    } else {
        1 + first_non_str(vs.drop_first())
    }
}

pub open spec fn all_str(vs: Seq<Toml>) -> bool {
    forall|i: int| 0 <= i < vs.len() ==> (#[trigger] vs[i]) is Str
}

/// The characters of each string element.
pub open spec fn str_values(vs: Seq<Toml>) -> Seq<Seq<char>> {
    vs.map_values(|t: Toml| t->Str_0)
}

pub proof fn lemma_first_non_str(vs: Seq<Toml>)
    ensures
        0 <= first_non_str(vs) <= vs.len(),
        first_non_str(vs) < vs.len() ==> !(vs[first_non_str(vs)] is Str),
        forall|j: int| 0 <= j < first_non_str(vs) ==> (#[trigger] vs[j]) is Str,
    decreases vs.len(),
{
    if vs.len() > 0 && vs[0] is Str {
        lemma_first_non_str(vs.drop_first());
        assert forall|j: int| 0 <= j < first_non_str(vs) implies (#[trigger] vs[j]) is Str by {
            if j > 0 {
                assert(vs.drop_first()[j - 1] is Str);
            }
        }
    }
}

/// Reads the `features` array: the set of its strings in order of first
/// occurrence; a non-array shape or a non-string element is a typed error.
pub open spec fn read_features(key: Seq<char>, es: Seq<(Seq<char>, Toml)>) -> Result<
    Option<Seq<Seq<char>>>,
    ErrView,
> {
    match tl_lookup(es, "features"@) {
        None => Ok(None),
        Some(Toml::Arr(vs)) => if all_str(vs) {
            Ok(Some(union_features(Seq::empty(), str_values(vs))))
        } else {
            Err(inv_type(key, "features"@, vs[first_non_str(vs)].kind_name(), "string"@))
        },
        Some(other) => Err(inv_type(key, "features"@, other.kind_name(), "array"@)),
    }
}

/// Reads a boolean field; any other shape quietly counts as unset.
pub open spec fn read_flag(es: Seq<(Seq<char>, Toml)>, k: Seq<char>) -> Option<bool> {
    match tl_lookup(es, k) {
        Some(Toml::Bool(b)) => Some(b),
        _ => None,
    }
}

/// Reads a dependency from a table node, field by field: identity, then
/// source, then registry, then the remaining fields.
pub open spec fn dep_from_table_spec(root: Seq<char>, key: Seq<char>, es: Seq<(Seq<char>, Toml)>) -> Result<
    DepView,
    ErrView,
> {
    match read_name_rename(key, es) {
        Err(e) => Err(e),
        Ok((name, rename)) => match read_source(root, key, es) {
            Err(e) => Err(e),
            Ok(src) => match read_opt_str_key(key, es, "registry"@) {
                Err(e) => Err(e),
                Ok(reg) => match read_opt_bool_key(key, es, "default-features"@) {
                    Err(e) => Err(e),
                    Ok(df) => match read_features(key, es) {
                        Err(e) => Err(e),
                        Ok(features) => match read_opt_bool_key(key, es, "optional"@) {
                            Err(e) => Err(e),
                            Ok(opt) => Ok(
                                DepView {
                                    name,
                                    rename,
                                    source: Some(src),
                                    registry: reg,
                                    default_features: df,
                                    features,
                                    optional: opt,
                                },
                            ),
                        },
                    },
                },
            },
        },
    }
}

/// Reads a dependency from a document node: a plain string is a bare
/// registry requirement; a table is read field by field; anything else is
/// not a dependency entry.
pub open spec fn dep_from_toml_spec(root: Seq<char>, key: Seq<char>, t: Toml) -> Result<
    DepView,
    ErrView,
> {
    match t {
        Toml::Str(v) => Ok(
            DepView {
                name: key,
                optional: None,
                features: None,
                default_features: None,
                source: Some(SourceView::Registry(RegistrySourceView { version: strip_metadata(v) })),
                registry: None,
                rename: None,
            },
        ),
        _ => if t.is_table_like() {
            dep_from_table_spec(root, key, t.entries())
        } else {
            Err(ErrView::UnrecognizedEntry { key })
        },
    }
}

impl Dependency {
    /// The node persisted for this dependency against the package root
    /// `crate_root`: the plain version string when the dependency is a bare
    /// registry requirement, an inline table otherwise, with keys in the
    /// fixed precedence order.
    #[verifier::rlimit(100)]
    pub fn to_toml(&self, crate_root: &str) -> (r: Item)
        requires
            is_absolute(crate_root@),
            path_diff_defined(self@, crate_root@),
        ensures
            item_model(r) == dep_to_toml_spec(self@, crate_root@),
            item_model(r).wf(),
    {
        proof {
            lemma_key_literals_distinct();
        }
        let is_short = self.optional.is_none() && self.features.is_none()
            && self.default_features.is_none() && self.registry.is_none()
            && self.rename.is_none() && (match &self.source {
            Some(Source::Registry(_)) => true,
            _ => false,
        });
        if is_short {
            match &self.source {
                Some(Source::Registry(src)) => {
                    return mk_str_item(src.version.as_str());
                },
                _ => {
                    proof {
                        assert(false);
                    }
                    return mk_str_item("");
                },
            }
        }
        let mut item = mk_inline_table_item();
        let ghost d = self@;
        let ghost root = crate_root@;
        let ghost mut es: Seq<(Seq<char>, Toml)> = Seq::empty();
        proof {
            assert(item_model(item) == Toml::Inline(es));
            assert(tl_unique(es));
            assert(tl_vals_wf(es));
        }
        match &self.source {
            Some(Source::Registry(src)) => {
                let v = mk_str_item(src.version.as_str());
                let ghost gv = item_model(v);
                item_table_insert_fresh(&mut item, "version", v);
                proof {
                    es = es.push(("version"@, gv));
                }
                proof {
                    assert(es =~= source_entries(d, root));
                }
            },
            Some(Source::Path(src)) => {
                match &src.version {
                    Some(ver) => {
                        let v = mk_str_item(ver.as_str());
                        let ghost gv = item_model(v);
                        item_table_insert_fresh(&mut item, "version", v);
                        proof {
                            es = es.push(("version"@, gv));
                        }
                    },
                    None => {},
                }
                let rel = path_field(crate_root, src.path.as_str());
                let v = mk_str_item(rel.as_str());
                let ghost gv = item_model(v);
                item_table_insert_fresh(&mut item, "path", v);
                proof {
                    es = es.push(("path"@, gv));
                }
                proof {
                    assert(es =~= source_entries(d, root));
                }
            },
            Some(Source::Git(src)) => {
                let v = mk_str_item(src.git.as_str());
                let ghost gv = item_model(v);
                item_table_insert_fresh(&mut item, "git", v);
                proof {
                    es = es.push(("git"@, gv));
                }
                match &src.branch {
                    Some(branch) => {
                        let v = mk_str_item(branch.as_str());
                        let ghost gv = item_model(v);
                        item_table_insert_fresh(&mut item, "branch", v);
                        proof {
                            es = es.push(("branch"@, gv));
                        }
                    },
                    None => {},
                }
                match &src.tag {
                    Some(tag) => {
                        let v = mk_str_item(tag.as_str());
                        let ghost gv = item_model(v);
                        item_table_insert_fresh(&mut item, "tag", v);
                        proof {
                            es = es.push(("tag"@, gv));
                        }
                    },
                    None => {},
                }
                match &src.rev {
                    Some(rev) => {
                        let v = mk_str_item(rev.as_str());
                        let ghost gv = item_model(v);
                        item_table_insert_fresh(&mut item, "rev", v);
                        proof {
                            es = es.push(("rev"@, gv));
                        }
                    },
                    None => {},
                }
                proof {
                    assert(es =~= source_entries(d, root));
                }
            },
            None => {
                proof {
                    assert(es =~= source_entries(d, root));
                }
            },
        }
        let has_version = match &self.source {
            Some(Source::Registry(_)) => true,
            Some(Source::Path(src)) => src.version.is_some(),
            _ => false,
        };
        if has_version {
            match &self.registry {
                Some(reg) => {
                    let v = mk_str_item(reg.as_str());
                    let ghost gv = item_model(v);
                    item_table_insert_fresh(&mut item, "registry", v);
                    proof {
                        es = es.push(("registry"@, gv));
                    }
                },
                None => {},
            }
        }
        proof {
            assert(es =~= source_entries(d, root) + registry_entry(d));
        }
        if self.rename.is_some() {
            let v = mk_str_item(self.name.as_str());
            let ghost gv = item_model(v);
            item_table_insert_fresh(&mut item, "package", v);
            proof {
                es = es.push(("package"@, gv));
            }
        }
        proof {
            assert(es =~= source_entries(d, root) + registry_entry(d) + package_entry(d));
        }
        match self.default_features {
            Some(b) => {
                let v = mk_bool_item(b);
                let ghost gv = item_model(v);
                item_table_insert_fresh(&mut item, "default-features", v);
                proof {
                    es = es.push(("default-features"@, gv));
                }
            },
            None => {},
        }
        proof {
            assert(es =~= source_entries(d, root) + registry_entry(d) + package_entry(d)
                + default_features_entry(d));
        }
        match &self.features {
            Some(fs) => {
                let v = mk_str_array_item(fs);
                proof {
                    assert(item_model(v).wf()) by {
                        let arr = strs(fs@).map_values(|s: Seq<char>| Toml::Str(s));
                        assert forall|i: int| 0 <= i < arr.len() implies (#[trigger] arr[i]).wf() by {
                            assert(arr[i] == Toml::Str(strs(fs@)[i]));
                        }
                    }
                }
                let ghost gv = item_model(v);
                item_table_insert_fresh(&mut item, "features", v);
                proof {
                    es = es.push(("features"@, gv));
                }
            },
            None => {},
        }
        proof {
            assert(es =~= source_entries(d, root) + registry_entry(d) + package_entry(d)
                + default_features_entry(d) + features_entry(d));
        }
        match self.optional {
            Some(b) => {
                let v = mk_bool_item(b);
                let ghost gv = item_model(v);
                item_table_insert_fresh(&mut item, "optional", v);
                proof {
                    es = es.push(("optional"@, gv));
                }
            },
            None => {},
        }
        proof {
            assert(es =~= dep_table_entries(d, root));
        }
        item
    }
}

/// Adds a fresh key to an inline table being built.
fn item_table_insert_fresh(item: &mut Item, key: &str, v: Item)
    requires
        item_model(*old(item)) is Inline,
        forall|j: int|
            0 <= j < item_model(*old(item)).entries().len() ==> (#[trigger] item_model(
                *old(item),
            ).entries()[j]).0 != key@,
        tl_unique(item_model(*old(item)).entries()),
        tl_vals_wf(item_model(*old(item)).entries()),
        item_model(v) is Str || item_model(v) is Bool || item_model(v) is Arr,
        item_model(v).wf(),
    ensures
        item_model(*final(item)) == Toml::Inline(
            item_model(*old(item)).entries().push((key@, item_model(v))),
        ),
        tl_unique(item_model(*final(item)).entries()),
        tl_vals_wf(item_model(*final(item)).entries()),
{
    proof {
        let es = item_model(*item).entries();
        lemma_has_iff_key(es, key@);
        lemma_set_absent(es, key@, item_model(v));
        let newes = es.push((key@, item_model(v)));
        assert(tl_unique(newes));
        assert(tl_vals_wf(newes)) by {
            assert(forall|j: int| 0 <= j < es.len() ==> newes[j] == es[j]);
        }
    }
    crate::tree::item_table_insert(item, key, v);
}



/// Whether the table's package identity matches the new name and rename:
/// an existing string `package` field must equal the canonical name of a
/// renamed dependency, and be absent when the dependency is not renamed.
pub open spec fn package_eq_model(t: Toml, name: Seq<char>, rename: Option<Seq<char>>) -> bool {
    t.is_table_like() && {
        let existing = match tl_lookup(t.entries(), "package"@) {
            Some(Toml::Str(s)) => Some(s),
            _ => None,
        };
        let newp = match rename {
            Some(_) => Some(name),
            None => None,
        };
        existing == newp
    }
}

/// Binds `k` to the string when given, and removes it otherwise.
pub open spec fn upd_opt_str(
    es: Seq<(Seq<char>, Toml)>,
    k: Seq<char>,
    v: Option<Seq<char>>,
) -> Seq<(Seq<char>, Toml)> {
    match v {
        Some(s) => tl_set(es, k, Toml::Str(s)),
        None => tl_remove(es, k),
    }
}

/// Binds `k` to the boolean when given, and removes it otherwise.
pub open spec fn upd_opt_bool(es: Seq<(Seq<char>, Toml)>, k: Seq<char>, v: Option<bool>) -> Seq<
    (Seq<char>, Toml),
> {
    match v {
        Some(b) => tl_set(es, k, Toml::Bool(b)),
        None => tl_remove(es, k),
    }
}

/// The strings of an existing `features` array; anything else — a missing
/// key, another shape, a non-string element — counts as no features.
pub open spec fn existing_features(es: Seq<(Seq<char>, Toml)>) -> Seq<Seq<char>> {
    match tl_lookup(es, "features"@) {
        Some(Toml::Arr(vs)) => if all_str(vs) {
            str_values(vs)
        } else {
            Seq::empty()
        },
        _ => Seq::empty(),
    }
}

/// The feature list persisted by a merge: the existing features (first
/// occurrence of each) extended by the new ones — a union, never a
/// replacement.
pub open spec fn features_merged(es: Seq<(Seq<char>, Toml)>, fs: Seq<Seq<char>>) -> Seq<Seq<char>> {
    union_features(union_features(Seq::empty(), existing_features(es)), fs)
}

/// The source fields after a merge: the new source's keys are written and
/// every key of the other source kinds is removed.
pub open spec fn upd_source(d: DepView, root: Seq<char>, es0: Seq<(Seq<char>, Toml)>) -> Seq<
    (Seq<char>, Toml),
> {
    match d.source {
        Some(SourceView::Registry(s)) => tl_remove(
            tl_remove(
                tl_remove(
                    tl_remove(
                        tl_remove(tl_set(es0, "version"@, Toml::Str(s.version)), "path"@),
                        "git"@,
                    ),
                    "branch"@,
                ),
                "tag"@,
            ),
            "rev"@,
        ),
        Some(SourceView::Path(p)) => tl_remove(
            tl_remove(
                tl_remove(
                    tl_remove(
                        tl_set(
                            upd_opt_str(es0, "version"@, p.version),
                            "path"@,
                            Toml::Str(path_field_spec(root, p.path)),
                        ),
                        "git"@,
                    ),
                    "branch"@,
                ),
                "tag"@,
            ),
            "rev"@,
        ),
        Some(SourceView::Git(g)) => tl_remove(
            tl_remove(
                upd_opt_str(
                    upd_opt_str(
                        upd_opt_str(tl_set(es0, "git"@, Toml::Str(g.git)), "branch"@, g.branch),
                        "tag"@,
                        g.tag,
                    ),
                    "rev"@,
                    g.rev,
                ),
                "version"@,
            ),
            "path"@,
        ),
        None => es0,
    }
}

/// `registry` survives a merge only beside a `version` key.
pub open spec fn upd_registry(d: DepView, es: Seq<(Seq<char>, Toml)>) -> Seq<(Seq<char>, Toml)> {
    if tl_has(es, "version"@) {
        upd_opt_str(es, "registry"@, d.registry)
    } else {
        tl_remove(es, "registry"@)
    }
}

/// `package` is written for a renamed dependency and otherwise left alone.
pub open spec fn upd_package(d: DepView, es: Seq<(Seq<char>, Toml)>) -> Seq<(Seq<char>, Toml)> {
    if d.rename is Some {
        tl_set(es, "package"@, Toml::Str(d.name))
    } else {
        es
    }
}

pub open spec fn upd_df(d: DepView, es: Seq<(Seq<char>, Toml)>) -> Seq<(Seq<char>, Toml)> {
    upd_opt_bool(es, "default-features"@, d.default_features)
}

/// New features are unioned into the existing array; without new features
/// the key is removed.
pub open spec fn upd_features(d: DepView, es: Seq<(Seq<char>, Toml)>) -> Seq<(Seq<char>, Toml)> {
    match d.features {
        Some(fs) => tl_set(es, "features"@, str_arr(features_merged(es, fs))),
        None => tl_remove(es, "features"@),
    }
}

pub open spec fn upd_optional(d: DepView, es: Seq<(Seq<char>, Toml)>) -> Seq<(Seq<char>, Toml)> {
    upd_opt_bool(es, "optional"@, d.optional)
}

/// The entries of a table merged field by field: each managed key is set
/// or removed according to the dependency, features are unioned, and every
/// other key stays as it was.
pub open spec fn update_entries(d: DepView, root: Seq<char>, es0: Seq<(Seq<char>, Toml)>) -> Seq<
    (Seq<char>, Toml),
> {
    upd_optional(d, upd_features(d, upd_df(d, upd_package(d, upd_registry(d, upd_source(d, root, es0))))))
}

/// What a merge leaves behind: a node with nothing worth preserving, or
/// one whose package identity changed, is replaced outright by the
/// dependency's own form; any other table is mutated field by field.
pub open spec fn update_toml_spec(d: DepView, root: Seq<char>, t: Toml) -> Toml {
    if str_or_1_len(t) || !package_eq_model(t, d.name, d.rename) {
        dep_to_toml_spec(d, root)
    } else {
        t.with_entries(update_entries(d, root, t.entries()))
    }
}

/// Whether the existing table's package identity matches the dependency's
/// name and rename.
fn is_package_eq(item: &Item, name: &str, rename: Option<&str>) -> (r: bool)
    ensures
        r == package_eq_model(
            item_model(*item),
            name@,
            match rename {
                Some(s) => Some(s@),
                None => None,
            },
        ),
{
    if !item_is_table_like(item) {
        return false;
    }
    let existing: Option<&str> = match item_table_get(item, "package") {
        Some(v) => item_as_str(v),
        None => None,
    };
    match (existing, rename) {
        (Some(e), Some(_)) => crate::strutil::str_eq(e, name),
        (None, None) => true,
        _ => false,
    }
}

/// Reads an optional string-valued field of a dependency table.
fn get_opt_str(item: &Item, dep_key: &str, k: &str) -> (r: Result<Option<String>, Error>)
    requires
        item_model(*item).is_table_like(),
    ensures
        (match r {
            Ok(o) => read_opt_str_key(dep_key@, item_model(*item).entries(), k@) == Ok::<
                Option<Seq<char>>,
                ErrView,
            >(crate::dependency::opt_str(o)),
            Err(e) => read_opt_str_key(dep_key@, item_model(*item).entries(), k@) == Err::<
                Option<Seq<char>>,
                ErrView,
            >(e@),
        }),
{
    match item_table_get(item, k) {
        None => Ok(None),
        Some(v) => match item_as_str(v) {
            Some(sv) => Ok(Some(sv.to_owned())),
            None => Err(invalid_type(dep_key, k, item_kind_name(v).as_str(), "string")),
        },
    }
}

/// Reads an optional boolean-valued field of a dependency table.
fn get_opt_bool(item: &Item, dep_key: &str, k: &str) -> (r: Result<Option<bool>, Error>)
    requires
        item_model(*item).is_table_like(),
    ensures
        (match r {
            Ok(o) => read_opt_bool_key(dep_key@, item_model(*item).entries(), k@) == Ok::<
                Option<bool>,
                ErrView,
            >(o),
            Err(e) => read_opt_bool_key(dep_key@, item_model(*item).entries(), k@) == Err::<
                Option<bool>,
                ErrView,
            >(e@),
        }),
{
    match item_table_get(item, k) {
        None => Ok(None),
        Some(v) => match item_as_bool(v) {
            Some(b) => Ok(Some(b)),
            None => Err(invalid_type(dep_key, k, item_kind_name(v).as_str(), "boolean")),
        },
    }
}

impl Dependency {
    /// Reads a dependency entry stored under `key` from a document node,
    /// resolving a relative path against `crate_root`.  A plain string is a
    /// bare registry requirement; a table is read field by field; anything
    /// else is rejected.
    #[verifier::loop_isolation(false)]
    pub fn from_toml(crate_root: &str, key: &str, item: &Item) -> (r: Result<Dependency, Error>)
        ensures
            (match r {
                Ok(dep) => {
                    &&& dep_from_toml_spec(crate_root@, key@, item_model(*item)) == Ok::<
                        DepView,
                        ErrView,
                    >(dep@)
                    &&& dep@.wf()
                    &&& dep.available_features@.len() == 0
                },
                Err(e) => dep_from_toml_spec(crate_root@, key@, item_model(*item)) == Err::<
                    DepView,
                    ErrView,
                >(e@),
            }),
    {
        let ghost t = item_model(*item);
        match item_as_str(item) {
            Some(v) => {
                let dep = Dependency::new(key).set_source(
                    Source::Registry(RegistrySource::new(v)),
                );
                return Ok(dep);
            },
            None => {},
        }
        if !item_is_table_like(item) {
            return Err(Error::UnrecognizedEntry { key: key.to_owned() });
        }
        let ghost es = t.entries();
        let name: String;
        let rename: Option<String>;
        match item_table_get(item, "package") {
            None => {
                name = key.to_owned();
                rename = None;
            },
            Some(v) => match item_as_str(v) {
                Some(n) => {
                    name = n.to_owned();
                    rename = Some(key.to_owned());
                },
                None => {
                    let kind = item_kind_name(v);
                    return Err(invalid_type(key, "package", kind.as_str(), "string"));
                },
            },
        }
        proof {
            assert(read_name_rename(key@, es) == Ok::<(Seq<char>, Option<Seq<char>>), ErrView>(
                (name@, crate::dependency::opt_str(rename)),
            ));
        }
        let source: Source;
        match item_table_get(item, "git") {
            Some(g) => {
                let url: String;
                match item_as_str(g) {
                    Some(u) => {
                        url = u.to_owned();
                    },
                    None => {
                        let kind = item_kind_name(g);
                        return Err(invalid_type(key, "git", kind.as_str(), "string"));
                    },
                }
                let branch = match get_opt_str(item, key, "branch") {
                    Ok(o) => o,
                    Err(e) => {
                        return Err(e);
                    },
                };
                let tag = match get_opt_str(item, key, "tag") {
                    Ok(o) => o,
                    Err(e) => {
                        return Err(e);
                    },
                };
                let rev = match get_opt_str(item, key, "rev") {
                    Ok(o) => o,
                    Err(e) => {
                        return Err(e);
                    },
                };
                let keep_branch = tag.is_none() && rev.is_none();
                let keep_tag = rev.is_none();
                source = Source::Git(
                    crate::dependency::GitSource {
                        git: url,
                        branch: if keep_branch {
                            branch
                        } else {
                            None
                        },
                        tag: if keep_tag {
                            tag
                        } else {
                            None
                        },
                        rev,
                    },
                );
            },
            None => {
                match item_table_get(item, "path") {
                    Some(p) => {
                        let raw: String;
                        match item_as_str(p) {
                            Some(sp) => {
                                raw = sp.to_owned();
                            },
                            None => {
                                let kind = item_kind_name(p);
                                return Err(invalid_type(key, "path", kind.as_str(), "string"));
                            },
                        }
                        let joined = join_path(crate_root, raw.as_str());
                        let version: Option<String>;
                        match item_table_get(item, "version") {
                            None => {
                                version = None;
                            },
                            Some(v) => match item_as_str(v) {
                                Some(sv) => {
                                    version = Some(crate::strutil::strip_plus(sv));
                                },
                                None => {
                                    let kind = item_kind_name(v);
                                    return Err(
                                        invalid_type(key, "version", kind.as_str(), "string"),
                                    );
                                },
                            },
                        }
                        source = Source::Path(
                            crate::dependency::PathSource { path: joined, version },
                        );
                    },
                    None => {
                        match item_table_get(item, "version") {
                            Some(v) => match item_as_str(v) {
                                Some(sv) => {
                                    source = Source::Registry(RegistrySource::new(sv));
                                },
                                None => {
                                    let kind = item_kind_name(v);
                                    return Err(
                                        invalid_type(key, "version", kind.as_str(), "string"),
                                    );
                                },
                            },
                            None => {
                                return Err(
                                    Error::UnrecognizedSource { key: key.to_owned() },
                                );
                            },
                        }
                    },
                }
            },
        }
        proof {
            assert(read_source(crate_root@, key@, es) == Ok::<SourceView, ErrView>(source@));
        }
        let registry = match get_opt_str(item, key, "registry") {
            Ok(o) => o,
            Err(e) => {
                return Err(e);
            },
        };
        let default_features = match get_opt_bool(item, key, "default-features") {
            Ok(o) => o,
            Err(e) => {
                return Err(e);
            },
        };
        let features: Option<Vec<String>>;
        match item_table_get(item, "features") {
            None => {
                features = None;
            },
            Some(fitem) => {
                if !crate::tree::item_is_array(fitem) {
                    let kind = item_kind_name(fitem);
                    return Err(invalid_type(key, "features", kind.as_str(), "array"));
                }
                let ghost vs = item_model(*fitem)->Arr_0;
                let n = item_array_len(fitem);
                let mut raw: Vec<String> = Vec::new();
                let mut i: usize = 0;
                proof {
                    assert(strs(raw@) =~= str_values(vs.take(0)));
                }
                while i < n
                    invariant
                        item_model(*fitem) is Arr,
                        vs == item_model(*fitem)->Arr_0,
                        n == vs.len(),
                        0 <= i <= n,
                        forall|j: int| 0 <= j < i ==> (#[trigger] vs[j]) is Str,
                        strs(raw@) == str_values(vs.take(i as int)),
                    decreases n - i,
                {
                    match item_array_str(fitem, i) {
                        Some(sv) => {
                            let ghost before = raw@;
                            raw.push(sv);
                            proof {
                                assert(raw@.drop_last() =~= before);
                                assert(strs(raw@) =~= strs(before).push(vs[i as int]->Str_0));
                                assert(vs.take(i as int + 1) =~= vs.take(i as int).push(
                                    vs[i as int],
                                ));
                                assert(str_values(vs.take(i as int + 1)) =~= str_values(
                                    vs.take(i as int),
                                ).push(vs[i as int]->Str_0));
                            }
                        },
                        None => {
                            let kind = item_array_kind_name(fitem, i);
                            proof {
                                lemma_first_non_str(vs);
                                assert(first_non_str(vs) == i as int);
                                assert(!all_str(vs));
                                assert(item_model(*fitem) == Toml::Arr(vs));
                                let ev = inv_type(
                                    key@,
                                    "features"@,
                                    vs[first_non_str(vs)].kind_name(),
                                    "string"@,
                                );
                                assert(read_features(key@, es) == Err::<
                                    Option<Seq<Seq<char>>>,
                                    ErrView,
                                >(ev));
                                assert(dep_from_table_spec(crate_root@, key@, es) == Err::<
                                    DepView,
                                    ErrView,
                                >(ev));
                                assert(dep_from_toml_spec(crate_root@, key@, t) == Err::<
                                    DepView,
                                    ErrView,
                                >(ev));
                            }
                            return Err(invalid_type(key, "features", kind.as_str(), "string"));
                        },
                    }
                    i = i + 1;
                }
                proof {
                    assert(vs.take(n as int) =~= vs);
                    assert(all_str(vs));
                }
                let mut fs: Vec<String> = Vec::new();
                union_into(&mut fs, &raw);
                proof {
                    crate::dependency::lemma_union_unique(
                        Seq::<Seq<char>>::empty(),
                        strs(raw@),
                    );
                    assert(strs(Seq::<String>::empty()) =~= Seq::<Seq<char>>::empty());
                }
                features = Some(fs);
            },
        }
        let optional = match get_opt_bool(item, key, "optional") {
            Ok(o) => o,
            Err(e) => {
                return Err(e);
            },
        };
        let dep = Dependency {
            name,
            rename,
            source: Some(source),
            registry,
            default_features,
            features,
            optional,
            available_features: Vec::new(),
        };
        proof {
            assert(dep_from_table_spec(crate_root@, key@, es) == Ok::<DepView, ErrView>(dep@));
        }
        Ok(dep)
    }
}


impl Dependency {
    /// Merges this dependency into an existing entry with the smallest
    /// possible diff.  A plain string, a one-entry table, or a table whose
    /// package identity changed is replaced outright; any other table is
    /// mutated key by key, so unrelated keys and their formatting survive,
    /// and features are unioned rather than replaced.
    #[verifier::loop_isolation(false)]
    #[verifier::rlimit(100)]
    pub fn update_toml(&self, crate_root: &str, item: &mut Item)
        requires
            is_absolute(crate_root@),
            path_diff_defined(self@, crate_root@),
            item_model(*old(item)).wf(),
        ensures
            item_model(*final(item)) == update_toml_spec(
                self@,
                crate_root@,
                item_model(*old(item)),
            ),
            item_model(*final(item)).wf(),
    {
        broadcast use crate::tree_model::lemma_set_unique;
        broadcast use crate::tree_model::lemma_remove_unique;
        broadcast use crate::tree_model::lemma_set_vals_wf;
        broadcast use crate::tree_model::lemma_remove_vals_wf;

        proof {
            lemma_key_literals_distinct();
        }
        let ghost t0 = item_model(*item);
        let ghost d = self@;
        let ghost root = crate_root@;
        let replace_whole = crate::manifest::str_or_1_len_table(item);
        let rename_ref: Option<&str> = match &self.rename {
            Some(r) => Some(r.as_str()),
            None => None,
        };
        if replace_whole || !is_package_eq(item, self.name.as_str(), rename_ref) {
            *item = self.to_toml(crate_root);
            return;
        }
        let ghost es0 = t0.entries();
        proof {
            assert(t0.is_table_like());
            assert(tl_unique(es0) && tl_vals_wf(es0));
        }
        match &self.source {
            Some(Source::Registry(src)) => {
                let v = mk_str_item(src.version.as_str());
                crate::tree::item_table_insert(item, "version", v);
                crate::tree::item_table_remove(item, "path");
                crate::tree::item_table_remove(item, "git");
                crate::tree::item_table_remove(item, "branch");
                crate::tree::item_table_remove(item, "tag");
                crate::tree::item_table_remove(item, "rev");
                proof {
                    assert(item_model(*item) == t0.with_entries(upd_source(d, root, es0)));
                }
            },
            Some(Source::Path(src)) => {
                match &src.version {
                    Some(ver) => {
                        let v = mk_str_item(ver.as_str());
                        crate::tree::item_table_insert(item, "version", v);
                    },
                    None => {
                        crate::tree::item_table_remove(item, "version");
                    },
                }
                let rel = path_field(crate_root, src.path.as_str());
                let v = mk_str_item(rel.as_str());
                crate::tree::item_table_insert(item, "path", v);
                crate::tree::item_table_remove(item, "git");
                crate::tree::item_table_remove(item, "branch");
                crate::tree::item_table_remove(item, "tag");
                crate::tree::item_table_remove(item, "rev");
                proof {
                    assert(item_model(*item) == t0.with_entries(upd_source(d, root, es0)));
                }
            },
            Some(Source::Git(src)) => {
                let v = mk_str_item(src.git.as_str());
                crate::tree::item_table_insert(item, "git", v);
                match &src.branch {
                    Some(branch) => {
                        let v = mk_str_item(branch.as_str());
                        crate::tree::item_table_insert(item, "branch", v);
                    },
                    None => {
                        crate::tree::item_table_remove(item, "branch");
                    },
                }
                match &src.tag {
                    Some(tag) => {
                        let v = mk_str_item(tag.as_str());
                        crate::tree::item_table_insert(item, "tag", v);
                    },
                    None => {
                        crate::tree::item_table_remove(item, "tag");
                    },
                }
                match &src.rev {
                    Some(rev) => {
                        let v = mk_str_item(rev.as_str());
                        crate::tree::item_table_insert(item, "rev", v);
                    },
                    None => {
                        crate::tree::item_table_remove(item, "rev");
                    },
                }
                crate::tree::item_table_remove(item, "version");
                crate::tree::item_table_remove(item, "path");
                proof {
                    assert(item_model(*item) == t0.with_entries(upd_source(d, root, es0)));
                }
            },
            None => {
                proof {
                    assert(item_model(*item) == t0.with_entries(upd_source(d, root, es0)));
                }
            },
        }
        let ghost es1 = upd_source(d, root, es0);
        proof {
            assert(item_model(*item) == t0.with_entries(es1));
        }
        if crate::tree::item_table_get(item, "version").is_some() {
            match &self.registry {
                Some(reg) => {
                    let v = mk_str_item(reg.as_str());
                    crate::tree::item_table_insert(item, "registry", v);
                    proof {
                        assert(item_model(*item) == t0.with_entries(upd_registry(d, es1)));
                    }
                },
                None => {
                    crate::tree::item_table_remove(item, "registry");
                    proof {
                        assert(item_model(*item) == t0.with_entries(upd_registry(d, es1)));
                    }
                },
            }
        } else {
            crate::tree::item_table_remove(item, "registry");
            proof {
                assert(item_model(*item) == t0.with_entries(upd_registry(d, es1)));
            }
        }
        let ghost es2 = upd_registry(d, es1);
        if self.rename.is_some() {
            let v = mk_str_item(self.name.as_str());
            crate::tree::item_table_insert(item, "package", v);
        }
        proof {
            assert(item_model(*item) == t0.with_entries(upd_package(d, es2)));
        }
        let ghost es3 = upd_package(d, es2);
        match self.default_features {
            Some(b) => {
                let v = mk_bool_item(b);
                crate::tree::item_table_insert(item, "default-features", v);
                proof {
                    assert(item_model(*item) == t0.with_entries(upd_df(d, es3)));
                }
            },
            None => {
                crate::tree::item_table_remove(item, "default-features");
                proof {
                    assert(item_model(*item) == t0.with_entries(upd_df(d, es3)));
                }
            },
        }
        let ghost es4 = upd_df(d, es3);
        match &self.features {
            Some(new_fs) => {
                let mut ex: Vec<String> = Vec::new();
                match crate::tree::item_table_get(item, "features") {
                    Some(f) => {
                        if crate::tree::item_is_array(f) {
                            let ghost vs = item_model(*f)->Arr_0;
                            let n = item_array_len(f);
                            let mut bad = false;
                            let mut i: usize = 0;
                            proof {
                                assert(strs(ex@) =~= str_values(vs.take(0)));
                            }
                            while i < n
                                invariant
                                    0 <= i <= n,
                                    !bad ==> forall|j: int|
                                        0 <= j < i ==> (#[trigger] vs[j]) is Str,
                                    !bad ==> strs(ex@) == str_values(vs.take(i as int)),
                                    bad ==> !all_str(vs),
                                decreases n - i,
                            {
                                match item_array_str(f, i) {
                                    Some(sv) => {
                                        if !bad {
                                            let ghost before = ex@;
                                            ex.push(sv);
                                            proof {
                                                assert(ex@.drop_last() =~= before);
                                                assert(strs(ex@) =~= strs(before).push(
                                                    vs[i as int]->Str_0,
                                                ));
                                                assert(vs.take(i as int + 1) =~= vs.take(
                                                    i as int,
                                                ).push(vs[i as int]));
                                                assert(str_values(vs.take(i as int + 1)) =~= str_values(
                                                    vs.take(i as int),
                                                ).push(vs[i as int]->Str_0));
                                            }
                                        }
                                    },
                                    None => {
                                        bad = true;
                                    },
                                }
                                i = i + 1;
                            }
                            if bad {
                                ex = Vec::new();
                                proof {
                                    assert(strs(ex@) =~= Seq::<Seq<char>>::empty());
                                }
                            } else {
                                proof {
                                    assert(vs.take(n as int) =~= vs);
                                    assert(all_str(vs));
                                }
                            }
                        }
                    },
                    None => {},
                }
                proof {
                    assert(strs(ex@) == existing_features(es4));
                }
                let mut merged: Vec<String> = Vec::new();
                proof {
                    assert(strs(merged@) =~= Seq::<Seq<char>>::empty());
                }
                union_into(&mut merged, &ex);
                union_into(&mut merged, new_fs);
                proof {
                    assert(strs(merged@) == features_merged(es4, d.features->Some_0));
                }
                let v = mk_str_array_item(&merged);
                proof {
                    assert(item_model(v).wf()) by {
                        let arr = strs(merged@).map_values(|s: Seq<char>| Toml::Str(s));
                        assert forall|i: int| 0 <= i < arr.len() implies (#[trigger] arr[i]).wf() by {
                            assert(arr[i] == Toml::Str(strs(merged@)[i]));
                        }
                    }
                }
                crate::tree::item_table_insert(item, "features", v);
                proof {
                    assert(item_model(*item) == t0.with_entries(upd_features(d, es4)));
                }
            },
            None => {
                crate::tree::item_table_remove(item, "features");
                proof {
                    assert(item_model(*item) == t0.with_entries(upd_features(d, es4)));
                }
            },
        }
        let ghost es5 = upd_features(d, es4);
        match self.optional {
            Some(b) => {
                let v = mk_bool_item(b);
                crate::tree::item_table_insert(item, "optional", v);
                proof {
                    assert(item_model(*item) == t0.with_entries(upd_optional(d, es5)));
                }
            },
            None => {
                crate::tree::item_table_remove(item, "optional");
                proof {
                    assert(item_model(*item) == t0.with_entries(upd_optional(d, es5)));
                }
            },
        }
        crate::tree::item_table_fmt(item);
        proof {
            assert(item_model(*item) == t0.with_entries(update_entries(d, root, es0)));
        }
    }
}

} // verus!
