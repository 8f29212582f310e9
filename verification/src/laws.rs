//! The laws the library stands on, each proved once and for all: the
//! persisted form of a dependency reads back as the same dependency, the
//! short form is stable, a merge never disturbs unrelated keys, and
//! features are unioned rather than replaced.

use vstd::prelude::*;
use crate::dependency::DepView;
use crate::dependency::SourceView;
use crate::dependency::push_unique;
use crate::dependency::union_features;
use crate::dependency::unique_strs;
use crate::dep_toml::dep_from_toml_spec;
use crate::dep_toml::dep_table_entries;
use crate::dep_toml::dep_to_toml_spec;
use crate::dep_toml::default_features_entry;
use crate::dep_toml::features_entry;
use crate::dep_toml::features_merged;
use crate::dep_toml::existing_features;
use crate::dep_toml::has_version_key;
use crate::dep_toml::lemma_key_literals_distinct;
use crate::dep_toml::optional_entry;
use crate::dep_toml::package_entry;
use crate::dep_toml::package_eq_model;
use crate::dep_toml::registry_entry;
use crate::dep_toml::short_form;
use crate::dep_toml::source_entries;
use crate::dep_toml::str_values;
use crate::dep_toml::update_toml_spec;
use crate::dep_toml::upd_df;
use crate::dep_toml::upd_features;
use crate::dep_toml::upd_optional;
use crate::dep_toml::upd_package;
use crate::dep_toml::upd_registry;
use crate::dep_toml::upd_source;
use crate::dep_toml::update_entries;
use crate::errors::ErrView;
use crate::manifest::str_or_1_len;
use crate::paths::components;
use crate::paths::comps_aux;
use crate::paths::is_absolute;
use crate::paths::keep_comp;
use crate::paths::diff_comps;
use crate::paths::join_norm;
use crate::paths::join_tail;
use crate::paths::path_field_spec;
use crate::paths::path_join;
use crate::strutil::strip_metadata;
use crate::strutil::norm_slashes;
use crate::tree_model::Toml;
use crate::tree_model::lemma_lookup_concat;
use crate::tree_model::lemma_lookup_remove;
use crate::tree_model::lemma_lookup_set;
use crate::tree_model::lemma_remove_unique;
use crate::tree_model::lemma_set_unique;
use crate::tree_model::str_arr;
use crate::tree_model::tl_has;
use crate::tree_model::tl_lookup;
use crate::tree_model::tl_unique;

verus! {

/// A version requirement that carries no build metadata.
pub open spec fn no_metadata(v: Seq<char>) -> bool {
    strip_metadata(v) == v
}

/// A dependency whose persisted form reads back unchanged: its feature set
/// holds no duplicates, its version requirements carry no metadata, a git
/// source selects at most one reference, and a path source's absolute path
/// is restored by joining the base with the persisted relative form.
pub open spec fn round_trippable(d: DepView, root: Seq<char>) -> bool {
    &&& d.wf()
    &&& d.source is Some
    &&& (d.registry is Some ==> has_version_key(d))
    &&& (match d.source {
        Some(SourceView::Registry(s)) => no_metadata(s.version),
        Some(SourceView::Path(p)) => {
            &&& (match p.version {
                Some(v) => no_metadata(v),
                None => true,
            })
            &&& diff_comps(components(p.path), components(root)) is Some
            &&& path_join(root, path_field_spec(root, p.path)) == p.path
        },
        Some(SourceView::Git(g)) => {
            &&& (g.branch is Some ==> g.tag is None && g.rev is None)
            &&& (g.tag is Some ==> g.rev is None)
        },
        None => false,
    })
}

/// A lookup in a one-entry list.
proof fn lemma_lookup_single(k: Seq<char>, v: Toml, k2: Seq<char>)
    ensures
        tl_lookup(seq![(k, v)], k2) == if k2 == k {
            Some(v)
        } else {
            None::<Toml>
        },
{
    let es = seq![(k, v)];
    assert(es[0] == (k, v));
    let rest = es.drop_first();
    assert(rest.len() == 0);
    assert(tl_lookup(rest, k2) is None);
}

/// A lookup in an optional string entry.
proof fn lemma_lookup_opt_entry(name: Seq<char>, v: Option<Seq<char>>, k2: Seq<char>)
    ensures
        tl_lookup(crate::dep_toml::opt_entry(name, v), k2) == (match v {
            Some(s) => if k2 == name {
                Some(Toml::Str(s))
            } else {
                None::<Toml>
            },
            None => None::<Toml>,
        }),
{
    match v {
        Some(s) => {
            lemma_lookup_single(name, Toml::Str(s), k2);
        },
        None => {},
    }
}

/// The value of a fixed key among the source fields.
proof fn lemma_se_lookup(d: DepView, root: Seq<char>, k: Seq<char>)
    ensures
        tl_lookup(source_entries(d, root), k) == (match d.source {
            Some(SourceView::Registry(s)) => if k == "version"@ {
                Some(Toml::Str(s.version))
            } else {
                None::<Toml>
            },
            Some(SourceView::Path(p)) => if k == "path"@ {
                Some(Toml::Str(path_field_spec(root, p.path)))
            } else if k == "version"@ {
                match p.version {
                    Some(v) => Some(Toml::Str(v)),
                    None => None::<Toml>,
                }
            } else {
                None::<Toml>
            },
            Some(SourceView::Git(g)) => if k == "git"@ {
                Some(Toml::Str(g.git))
            } else if k == "branch"@ {
                match g.branch {
                    Some(v) => Some(Toml::Str(v)),
                    None => None::<Toml>,
                }
            } else if k == "tag"@ {
                match g.tag {
                    Some(v) => Some(Toml::Str(v)),
                    None => None::<Toml>,
                }
            } else if k == "rev"@ {
                match g.rev {
                    Some(v) => Some(Toml::Str(v)),
                    None => None::<Toml>,
                }
            } else {
                None::<Toml>
            },
            None => None::<Toml>,
        }),
{
    lemma_key_literals_distinct();
    match d.source {
        Some(SourceView::Registry(s)) => {
            lemma_lookup_single("version"@, Toml::Str(s.version), k);
        },
        Some(SourceView::Path(p)) => {
            let ve = crate::dep_toml::opt_entry("version"@, p.version);
            let pe2 = seq![("path"@, Toml::Str(path_field_spec(root, p.path)))];
            lemma_lookup_concat(ve, pe2, k);
            lemma_lookup_opt_entry("version"@, p.version, k);
            lemma_lookup_single("path"@, Toml::Str(path_field_spec(root, p.path)), k);
        },
        Some(SourceView::Git(g)) => {
            let ge = seq![("git"@, Toml::Str(g.git))];
            let be = crate::dep_toml::opt_entry("branch"@, g.branch);
            let te = crate::dep_toml::opt_entry("tag"@, g.tag);
            let rve = crate::dep_toml::opt_entry("rev"@, g.rev);
            assert(source_entries(d, root) =~= ge + (be + (te + rve))) by {
                assert(source_entries(d, root) =~= ((ge + be) + te) + rve);
            }
            lemma_lookup_concat(ge, be + (te + rve), k);
            lemma_lookup_concat(be, te + rve, k);
            lemma_lookup_concat(te, rve, k);
            lemma_lookup_single("git"@, Toml::Str(g.git), k);
            lemma_lookup_opt_entry("branch"@, g.branch, k);
            lemma_lookup_opt_entry("tag"@, g.tag, k);
            lemma_lookup_opt_entry("rev"@, g.rev, k);
        },
        None => {},
    }
}

/// Decomposes a full-table lookup into the six pieces.
#[verifier::rlimit(100)]
proof fn lemma_pieces(
    k: Seq<char>,
    se: Seq<(Seq<char>, Toml)>,
    re: Seq<(Seq<char>, Toml)>,
    pe: Seq<(Seq<char>, Toml)>,
    de: Seq<(Seq<char>, Toml)>,
    fe: Seq<(Seq<char>, Toml)>,
    oe: Seq<(Seq<char>, Toml)>,
    d: DepView,
    root: Seq<char>,
)
    requires
        se == source_entries(d, root),
        re == registry_entry(d),
        pe == package_entry(d),
        de == default_features_entry(d),
        fe == features_entry(d),
        oe == optional_entry(d),
    ensures
        tl_lookup(dep_table_entries(d, root), k) == if tl_has(se, k) {
            tl_lookup(se, k)
        } else if tl_has(re, k) {
            tl_lookup(re, k)
        } else if tl_has(pe, k) {
            tl_lookup(pe, k)
        } else if tl_has(de, k) {
            tl_lookup(de, k)
        } else if tl_has(fe, k) {
            tl_lookup(fe, k)
        } else {
            tl_lookup(oe, k)
        },
        tl_lookup(re, k) == (if has_version_key(d) && d.registry is Some && k == "registry"@ {
            Some(Toml::Str(d.registry->Some_0))
        } else {
            None::<Toml>
        }),
        tl_lookup(pe, k) == (if d.rename is Some && k == "package"@ {
            Some(Toml::Str(d.name))
        } else {
            None::<Toml>
        }),
        tl_lookup(de, k) == (match d.default_features {
            Some(b) => if k == "default-features"@ {
                Some(Toml::Bool(b))
            } else {
                None::<Toml>
            },
            None => None::<Toml>,
        }),
        tl_lookup(fe, k) == (match d.features {
            Some(fs) => if k == "features"@ {
                Some(str_arr(fs))
            } else {
                None::<Toml>
            },
            None => None::<Toml>,
        }),
        tl_lookup(oe, k) == (match d.optional {
            Some(b) => if k == "optional"@ {
                Some(Toml::Bool(b))
            } else {
                None::<Toml>
            },
            None => None::<Toml>,
        }),
{
    assert(dep_table_entries(d, root) =~= se + (re + (pe + (de + (fe + oe))))) by {
        assert(dep_table_entries(d, root) =~= ((((se + re) + pe) + de) + fe) + oe);
    }
    lemma_lookup_concat(se, re + (pe + (de + (fe + oe))), k);
    lemma_lookup_concat(re, pe + (de + (fe + oe)), k);
    lemma_lookup_concat(pe, de + (fe + oe), k);
    lemma_lookup_concat(de, fe + oe, k);
    lemma_lookup_concat(fe, oe, k);
    if has_version_key(d) && d.registry is Some {
        lemma_lookup_single("registry"@, Toml::Str(d.registry->Some_0), k);
    }
    if d.rename is Some {
        lemma_lookup_single("package"@, Toml::Str(d.name), k);
    }
    match d.default_features {
        Some(b) => lemma_lookup_single("default-features"@, Toml::Bool(b), k),
        None => (),
    }
    match d.features {
        Some(fs) => lemma_lookup_single("features"@, str_arr(fs), k),
        None => (),
    }
    match d.optional {
        Some(b) => lemma_lookup_single("optional"@, Toml::Bool(b), k),
        None => (),
    }
}

/// The value of each fixed key in a freshly persisted dependency table.
#[verifier::rlimit(100)]
proof fn lemma_dep_entries_lookups(d: DepView, root: Seq<char>)
    ensures
        tl_lookup(dep_table_entries(d, root), "package"@) == (match d.rename {
            Some(_) => Some(Toml::Str(d.name)),
            None => None::<Toml>,
        }),
        tl_lookup(dep_table_entries(d, root), "git"@) == (match d.source {
            Some(SourceView::Git(g)) => Some(Toml::Str(g.git)),
            _ => None::<Toml>,
        }),
        tl_lookup(dep_table_entries(d, root), "branch"@) == (match d.source {
            Some(SourceView::Git(g)) => match g.branch {
                Some(b) => Some(Toml::Str(b)),
                None => None::<Toml>,
            },
            _ => None::<Toml>,
        }),
        tl_lookup(dep_table_entries(d, root), "tag"@) == (match d.source {
            Some(SourceView::Git(g)) => match g.tag {
                Some(b) => Some(Toml::Str(b)),
                None => None::<Toml>,
            },
            _ => None::<Toml>,
        }),
        tl_lookup(dep_table_entries(d, root), "rev"@) == (match d.source {
            Some(SourceView::Git(g)) => match g.rev {
                Some(b) => Some(Toml::Str(b)),
                None => None::<Toml>,
            },
            _ => None::<Toml>,
        }),
        tl_lookup(dep_table_entries(d, root), "path"@) == (match d.source {
            Some(SourceView::Path(p)) => Some(Toml::Str(path_field_spec(root, p.path))),
            _ => None::<Toml>,
        }),
        tl_lookup(dep_table_entries(d, root), "version"@) == (match d.source {
            Some(SourceView::Registry(s)) => Some(Toml::Str(s.version)),
            Some(SourceView::Path(p)) => match p.version {
                Some(v) => Some(Toml::Str(v)),
                None => None::<Toml>,
            },
            _ => None::<Toml>,
        }),
        tl_lookup(dep_table_entries(d, root), "registry"@) == (if has_version_key(d) && d.registry is Some {
            Some(Toml::Str(d.registry->Some_0))
        } else {
            None::<Toml>
        }),
        tl_lookup(dep_table_entries(d, root), "default-features"@) == (match d.default_features {
            Some(b) => Some(Toml::Bool(b)),
            None => None::<Toml>,
        }),
        tl_lookup(dep_table_entries(d, root), "features"@) == (match d.features {
            Some(fs) => Some(str_arr(fs)),
            None => None::<Toml>,
        }),
        tl_lookup(dep_table_entries(d, root), "optional"@) == (match d.optional {
            Some(b) => Some(Toml::Bool(b)),
            None => None::<Toml>,
        }),
{
    lemma_key_literals_distinct();
    let se = source_entries(d, root);
    let re = registry_entry(d);
    let pe = package_entry(d);
    let de = default_features_entry(d);
    let fe = features_entry(d);
    let oe = optional_entry(d);
    assert(tl_lookup(dep_table_entries(d, root), "package"@) == (match d.rename {
            Some(_) => Some(Toml::Str(d.name)),
            None => None::<Toml>,
        })) by {
        lemma_pieces("package"@, se, re, pe, de, fe, oe, d, root);
        lemma_se_lookup(d, root, "package"@);
    }
    assert(tl_lookup(dep_table_entries(d, root), "git"@) == (match d.source {
            Some(SourceView::Git(g)) => Some(Toml::Str(g.git)),
            _ => None::<Toml>,
        })) by {
        lemma_pieces("git"@, se, re, pe, de, fe, oe, d, root);
        lemma_se_lookup(d, root, "git"@);
    }
    assert(tl_lookup(dep_table_entries(d, root), "branch"@) == (match d.source {
            Some(SourceView::Git(g)) => match g.branch {
                Some(b) => Some(Toml::Str(b)),
                None => None::<Toml>,
            },
            _ => None::<Toml>,
        })) by {
        lemma_pieces("branch"@, se, re, pe, de, fe, oe, d, root);
        lemma_se_lookup(d, root, "branch"@);
    }
    assert(tl_lookup(dep_table_entries(d, root), "tag"@) == (match d.source {
            Some(SourceView::Git(g)) => match g.tag {
                Some(b) => Some(Toml::Str(b)),
                None => None::<Toml>,
            },
            _ => None::<Toml>,
        })) by {
        lemma_pieces("tag"@, se, re, pe, de, fe, oe, d, root);
        lemma_se_lookup(d, root, "tag"@);
    }
    assert(tl_lookup(dep_table_entries(d, root), "rev"@) == (match d.source {
            Some(SourceView::Git(g)) => match g.rev {
                Some(b) => Some(Toml::Str(b)),
                None => None::<Toml>,
            },
            _ => None::<Toml>,
        })) by {
        lemma_pieces("rev"@, se, re, pe, de, fe, oe, d, root);
        lemma_se_lookup(d, root, "rev"@);
    }
    assert(tl_lookup(dep_table_entries(d, root), "path"@) == (match d.source {
            Some(SourceView::Path(p)) => Some(Toml::Str(path_field_spec(root, p.path))),
            _ => None::<Toml>,
        })) by {
        lemma_pieces("path"@, se, re, pe, de, fe, oe, d, root);
        lemma_se_lookup(d, root, "path"@);
    }
    assert(tl_lookup(dep_table_entries(d, root), "version"@) == (match d.source {
            Some(SourceView::Registry(s)) => Some(Toml::Str(s.version)),
            Some(SourceView::Path(p)) => match p.version {
                Some(v) => Some(Toml::Str(v)),
                None => None::<Toml>,
            },
            _ => None::<Toml>,
        })) by {
        lemma_pieces("version"@, se, re, pe, de, fe, oe, d, root);
        lemma_se_lookup(d, root, "version"@);
    }
    assert(tl_lookup(dep_table_entries(d, root), "registry"@) == (if has_version_key(d) && d.registry is Some {
            Some(Toml::Str(d.registry->Some_0))
        } else {
            None::<Toml>
        })) by {
        lemma_pieces("registry"@, se, re, pe, de, fe, oe, d, root);
        lemma_se_lookup(d, root, "registry"@);
    }
    assert(tl_lookup(dep_table_entries(d, root), "default-features"@) == (match d.default_features {
            Some(b) => Some(Toml::Bool(b)),
            None => None::<Toml>,
        })) by {
        lemma_pieces("default-features"@, se, re, pe, de, fe, oe, d, root);
        lemma_se_lookup(d, root, "default-features"@);
    }
    assert(tl_lookup(dep_table_entries(d, root), "features"@) == (match d.features {
            Some(fs) => Some(str_arr(fs)),
            None => None::<Toml>,
        })) by {
        lemma_pieces("features"@, se, re, pe, de, fe, oe, d, root);
        lemma_se_lookup(d, root, "features"@);
    }
    assert(tl_lookup(dep_table_entries(d, root), "optional"@) == (match d.optional {
            Some(b) => Some(Toml::Bool(b)),
            None => None::<Toml>,
        })) by {
        lemma_pieces("optional"@, se, re, pe, de, fe, oe, d, root);
        lemma_se_lookup(d, root, "optional"@);
    }
}

/// A duplicate-free set unions into an untouched accumulator as a plain
/// concatenation.
proof fn lemma_union_absorb(acc: Seq<Seq<char>>, xs: Seq<Seq<char>>)
    requires
        unique_strs(acc + xs),
    ensures
        union_features(acc, xs) == acc + xs,
    decreases xs.len(),
{
    if xs.len() == 0 {
        assert(union_features(acc, xs) =~= acc + xs);
    } else {
        assert(!acc.contains(xs[0])) by {
            if acc.contains(xs[0]) {
                let w: int = choose|w: int| 0 <= w < acc.len() && acc[w] == xs[0];
                assert((acc + xs)[w] == xs[0]);
                assert((acc + xs)[acc.len() as int] == xs[0]);
            }
        }
        assert(push_unique(acc, xs[0]) == acc.push(xs[0]));
        assert(acc.push(xs[0]) + xs.drop_first() =~= acc + xs);
        lemma_union_absorb(acc.push(xs[0]), xs.drop_first());
        assert(union_features(acc, xs) == union_features(acc.push(xs[0]), xs.drop_first()));
    }
}

/// Unioning a duplicate-free set into the empty set gives it back.
pub proof fn lemma_union_empty(xs: Seq<Seq<char>>)
    requires
        unique_strs(xs),
    ensures
        union_features(Seq::empty(), xs) == xs,
{
    assert(Seq::<Seq<char>>::empty() + xs =~= xs);
    lemma_union_absorb(Seq::empty(), xs);
}

/// Round trip: a dependency persisted against an absolute base path and
/// read back under its own key is the same dependency — the informational
/// `available_features` cache aside, which is never persisted.
pub proof fn lemma_round_trip(d: DepView, root: Seq<char>)
    requires
        round_trippable(d, root),
    ensures
        dep_from_toml_spec(root, d.toml_key(), dep_to_toml_spec(d, root)) == Ok::<
            DepView,
            ErrView,
        >(d),
{
    lemma_key_literals_distinct();
    let key = d.toml_key();
    if short_form(d) {
        let v = d.source->Some_0->Registry_0.version;
        assert(dep_to_toml_spec(d, root) == Toml::Str(v));
    } else {
        let es = dep_table_entries(d, root);
        lemma_dep_entries_lookups(d, root);
        match d.features {
            Some(fs) => {
                let arr = fs.map_values(|s: Seq<char>| Toml::Str(s));
                assert(crate::dep_toml::all_str(arr)) by {
                    assert(forall|i: int|
                        0 <= i < arr.len() ==> (#[trigger] arr[i]) == Toml::Str(fs[i]));
                }
                assert(str_values(arr) =~= fs) by {
                    assert(forall|i: int|
                        0 <= i < arr.len() ==> (#[trigger] str_values(arr)[i]) == fs[i]);
                }
                lemma_union_empty(fs);
            },
            None => {},
        }
    }
}

/// Short-form stability: a bare registry requirement is persisted as a
/// plain string node, never a table, and reads back as the same bare
/// dependency.
pub proof fn lemma_short_form_stability(d: DepView, root: Seq<char>)
    requires
        short_form(d),
        no_metadata(d.source->Some_0->Registry_0.version),
        d.wf(),
    ensures
        dep_to_toml_spec(d, root) is Str,
        dep_from_toml_spec(root, d.toml_key(), dep_to_toml_spec(d, root)) == Ok::<
            DepView,
            ErrView,
        >(d),
{
    lemma_round_trip(d, root);
}

/// The keys a merge manages; everything else survives untouched.
pub open spec fn managed_key(k: Seq<char>) -> bool {
    ||| k == "version"@
    ||| k == "path"@
    ||| k == "git"@
    ||| k == "branch"@
    ||| k == "tag"@
    ||| k == "rev"@
    ||| k == "registry"@
    ||| k == "package"@
    ||| k == "default-features"@
    ||| k == "features"@
    ||| k == "optional"@
}

/// Merging preserves unrelated keys: a key the merge does not manage keeps
/// exactly the value it had, whatever the dependency asks for.
pub proof fn lemma_merge_preserves_unrelated_keys(
    d: DepView,
    root: Seq<char>,
    t: Toml,
    k: Seq<char>,
)
    requires
        t.wf(),
        !str_or_1_len(t),
        package_eq_model(t, d.name, d.rename),
        !managed_key(k),
    ensures
        tl_lookup(update_toml_spec(d, root, t).entries(), k) == tl_lookup(t.entries(), k),
{
    lemma_key_literals_distinct();
    broadcast use lemma_lookup_set;
    broadcast use lemma_lookup_remove;
    broadcast use lemma_set_unique;
    broadcast use lemma_remove_unique;

    let es0 = t.entries();
    let es1 = upd_source(d, root, es0);
    let es2 = upd_registry(d, es1);
    let es3 = upd_package(d, es2);
    let es4 = upd_df(d, es3);
    let es5 = upd_features(d, es4);
    let es6 = upd_optional(d, es5);
    assert(tl_unique(es0));
    assert(tl_unique(es1) && tl_lookup(es1, k) == tl_lookup(es0, k));
    assert(tl_unique(es2) && tl_lookup(es2, k) == tl_lookup(es1, k));
    assert(tl_unique(es3) && tl_lookup(es3, k) == tl_lookup(es2, k));
    assert(tl_unique(es4) && tl_lookup(es4, k) == tl_lookup(es3, k));
    assert(tl_unique(es5) && tl_lookup(es5, k) == tl_lookup(es4, k));
    assert(tl_lookup(es6, k) == tl_lookup(es5, k));
    assert(update_toml_spec(d, root, t) == t.with_entries(update_entries(d, root, es0)));
}

/// Merging unions features instead of replacing them: with new features
/// given, the merged entry holds the existing strings first (duplicates
/// collapsed) and then the new ones that were not yet present.
pub proof fn lemma_merge_unions_features(d: DepView, root: Seq<char>, t: Toml)
    requires
        t.wf(),
        !str_or_1_len(t),
        package_eq_model(t, d.name, d.rename),
        d.features is Some,
    ensures
        tl_lookup(update_toml_spec(d, root, t).entries(), "features"@) == Some(
            str_arr(
                union_features(
                    union_features(Seq::empty(), existing_features(t.entries())),
                    d.features->Some_0,
                ),
            ),
        ),
{
    lemma_key_literals_distinct();
    broadcast use lemma_lookup_set;
    broadcast use lemma_lookup_remove;
    broadcast use lemma_set_unique;
    broadcast use lemma_remove_unique;

    let es0 = t.entries();
    let es1 = upd_source(d, root, es0);
    let es2 = upd_registry(d, es1);
    let es3 = upd_package(d, es2);
    let es4 = upd_df(d, es3);
    let es5 = upd_features(d, es4);
    assert(tl_unique(es0));
    assert(tl_unique(es1) && tl_lookup(es1, "features"@) == tl_lookup(es0, "features"@));
    assert(tl_unique(es2) && tl_lookup(es2, "features"@) == tl_lookup(es1, "features"@));
    assert(tl_unique(es3) && tl_lookup(es3, "features"@) == tl_lookup(es2, "features"@));
    assert(tl_unique(es4) && tl_lookup(es4, "features"@) == tl_lookup(es3, "features"@));
    assert(existing_features(es4) == existing_features(es0));
    assert(tl_unique(es5));
    assert(tl_lookup(es5, "features"@) == Some(str_arr(features_merged(es4, d.features->Some_0))));
    assert(tl_lookup(upd_optional(d, es5), "features"@) == tl_lookup(es5, "features"@));
}

/// A persisted relative path never holds a backslash: separators are
/// normalized to forward slashes.
pub proof fn lemma_relative_path_no_backslash(cs: Seq<Seq<char>>)
    ensures
        forall|j: int| 0 <= j < join_norm(cs).len() ==> join_norm(cs)[j] != '\\',
    decreases cs.len(),
{
    if cs.len() > 0 {
        lemma_join_tail_no_backslash(cs.drop_first());
        let out = join_norm(cs);
        let n0 = norm_slashes(cs[0]);
        let rest = join_tail(cs.drop_first());
        assert forall|j: int| 0 <= j < out.len() implies out[j] != '\\' by {
            assert(out == n0 + rest);
            if j < n0.len() {
                assert(out[j] == n0[j]);
            } else {
                assert(out[j] == rest[j - n0.len()]);
            }
        }
    }
}

proof fn lemma_join_tail_no_backslash(cs: Seq<Seq<char>>)
    ensures
        forall|j: int| 0 <= j < join_tail(cs).len() ==> join_tail(cs)[j] != '\\',
    decreases cs.len(),
{
    if cs.len() > 0 {
        lemma_join_tail_no_backslash(cs.drop_first());
        let out = join_tail(cs);
        let n0 = norm_slashes(cs[0]);
        let rest = join_tail(cs.drop_first());
        assert forall|j: int| 0 <= j < out.len() implies out[j] != '\\' by {
            assert(out == seq!['/'] + n0 + rest);
            if j == 0 {
                assert(out[j] == '/');
            } else if j < 1 + n0.len() {
                assert(out[j] == n0[j - 1]);
            } else {
                assert(out[j] == rest[j - 1 - n0.len()]);
            }
        }
    }
}

/// A sibling directory persists as `../<name>`: from a base directory, a
/// target that shares every component but the last computes as one step up
/// and the sibling's name.
pub proof fn lemma_sibling_relative_path(root: Seq<char>, abs: Seq<char>, pre: Seq<Seq<char>>, a: Seq<char>, b: Seq<char>)
    requires
        components(root) == pre.push(a),
        components(abs) == pre.push(b),
        a != b,
        a != crate::paths::dotdot(),
    ensures
        path_field_spec(root, abs) == seq!['.', '.', '/'] + norm_slashes(b),
{
    lemma_diff_strip_prefix(pre, a, b);
    let diff = diff_comps(components(abs), components(root))->Some_0;
    assert(diff =~= seq![crate::paths::dotdot(), b]);
    assert(join_norm(diff) == norm_slashes(crate::paths::dotdot()) + join_tail(seq![b])) by {
        assert(diff.drop_first() =~= seq![b]);
    }
    assert(join_tail(seq![b]) =~= seq!['/'] + norm_slashes(b)) by {
        assert(seq![b].drop_first() =~= Seq::<Seq<char>>::empty());
        assert(join_tail(Seq::<Seq<char>>::empty()) =~= Seq::<char>::empty());
    }
    assert(norm_slashes(crate::paths::dotdot()) =~= seq!['.', '.']);
    assert(join_norm(diff) =~= seq!['.', '.', '/'] + norm_slashes(b));
}

proof fn lemma_diff_strip_prefix(pre: Seq<Seq<char>>, a: Seq<char>, b: Seq<char>)
    requires
        a != b,
        a != crate::paths::dotdot(),
    ensures
        diff_comps(pre.push(b), pre.push(a)) == Some(seq![crate::paths::dotdot(), b]),
    decreases pre.len(),
{
    if pre.len() == 0 {
        assert(pre.push(b)[0] == b && pre.push(a)[0] == a);
        assert(diff_comps(pre.push(b), pre.push(a)) == Some(
            Seq::new(1, |i: int| crate::paths::dotdot()) + pre.push(b),
        ));
        assert(Seq::new(1, |i: int| crate::paths::dotdot()) + pre.push(b) =~= seq![
            crate::paths::dotdot(),
            b,
        ]);
    } else {
        assert(pre.push(b)[0] == pre[0] && pre.push(a)[0] == pre[0]);
        assert(pre.push(b).drop_first() =~= pre.drop_first().push(b));
        assert(pre.push(a).drop_first() =~= pre.drop_first().push(a));
        lemma_diff_strip_prefix(pre.drop_first(), a, b);
    }
}


/// Appending `/name` to a path appends one component.
proof fn lemma_components_child(s: Seq<char>, n: Seq<char>)
    requires
        n.len() > 0,
        forall|j: int| 0 <= j < n.len() ==> n[j] != '/',
        keep_comp(n),
    ensures
        components(s + seq!['/'] + n) =~= components(s) + seq![n],
{
    let ext = s + seq!['/'] + n;
    assert(ext.len() == s.len() + 1 + n.len());
    lemma_comps_child_tail(s, n, 0);
    lemma_comps_child_head(s, n, 0, Seq::empty());
    assert(comps_aux(ext, s.len() as int + 1, Seq::empty()) =~= seq![n]) by {
        assert(Seq::<char>::empty() =~= n.take(0));
    }
}

/// Reading the trailing component: from just past the separator, the rest
/// of the extended path is one clean segment.
proof fn lemma_comps_child_tail(s: Seq<char>, n: Seq<char>, j: int)
    requires
        0 <= j <= n.len(),
        n.len() > 0,
        forall|w: int| 0 <= w < n.len() ==> n[w] != '/',
        keep_comp(n),
    ensures
        comps_aux(s + seq!['/'] + n, s.len() + 1 + j, n.take(j)) =~= seq![n],
    decreases n.len() - j,
{
    let ext = s + seq!['/'] + n;
    if j == n.len() {
        assert(n.take(j) =~= n);
        assert(s.len() + 1 + j >= ext.len());
    } else {
        assert(ext[s.len() + 1 + j] == n[j]);
        lemma_comps_child_tail(s, n, j + 1);
        assert(n.take(j).push(n[j]) =~= n.take(j + 1));
    }
}

/// Walking the base part: the extended path splits exactly as the base
/// does, with the trailing component after it.
proof fn lemma_comps_child_head(s: Seq<char>, n: Seq<char>, i: int, cur: Seq<char>)
    requires
        0 <= i <= s.len(),
        n.len() > 0,
        forall|w: int| 0 <= w < n.len() ==> n[w] != '/',
        keep_comp(n),
    ensures
        comps_aux(s + seq!['/'] + n, i, cur) =~= comps_aux(s, i, cur) + comps_aux(
            s + seq!['/'] + n,
            s.len() as int + 1,
            Seq::empty(),
        ),
    decreases s.len() - i,
{
    let ext = s + seq!['/'] + n;
    if i == s.len() {
        assert(ext[i] == '/');
        if keep_comp(cur) {
            assert(comps_aux(ext, i, cur) == seq![cur] + comps_aux(ext, i + 1, Seq::empty()));
            assert(comps_aux(s, i, cur) == seq![cur]);
        } else {
            assert(comps_aux(ext, i, cur) == comps_aux(ext, i + 1, Seq::empty()));
            assert(comps_aux(s, i, cur) =~= Seq::<Seq<char>>::empty());
        }
    } else {
        assert(ext[i] == s[i]);
        if s[i] == '/' {
            lemma_comps_child_head(s, n, i + 1, Seq::empty());
        } else {
            lemma_comps_child_head(s, n, i + 1, cur.push(s[i]));
        }
    }
}

/// Dropping a shared prefix leaves exactly the remainder.
proof fn lemma_diff_drop_prefix(b: Seq<Seq<char>>, rest: Seq<Seq<char>>)
    requires
        rest.len() > 0,
    ensures
        diff_comps(b + rest, b) == Some(rest),
    decreases b.len(),
{
    if b.len() == 0 {
        assert(b + rest =~= rest);
    } else {
        assert((b + rest)[0] == b[0]);
        assert((b + rest).drop_first() =~= b.drop_first() + rest);
        lemma_diff_drop_prefix(b.drop_first(), rest);
    }
}

/// A dependency directly under a subdirectory of the package root persists
/// as the bare directory name and re-joins to the same absolute path: for
/// such paths the round trip holds with nothing more assumed.
pub proof fn lemma_subdir_path_rejoins(root: Seq<char>, name: Seq<char>)
    requires
        is_absolute(root),
        root[root.len() - 1] != '/',
        name.len() > 0,
        forall|j: int| 0 <= j < name.len() ==> name[j] != '/' && name[j] != '\\',
        !(name.len() == 1 && name[0] == '.'),
        name != crate::paths::dotdot(),
    ensures
        diff_comps(components(root + seq!['/'] + name), components(root)) is Some,
        path_field_spec(root, root + seq!['/'] + name) == name,
        path_join(root, path_field_spec(root, root + seq!['/'] + name)) == root + seq!['/']
            + name,
{
    let path = root + seq!['/'] + name;
    lemma_components_child(root, name);
    lemma_diff_drop_prefix(components(root), seq![name]);
    assert(diff_comps(components(path), components(root)) == Some(seq![name]));
    assert(join_norm(seq![name]) =~= name) by {
        assert(seq![name].drop_first() =~= Seq::<Seq<char>>::empty());
        assert(join_tail(Seq::<Seq<char>>::empty()) =~= Seq::<char>::empty());
        assert(norm_slashes(name) =~= name);
        assert(norm_slashes(name) + Seq::<char>::empty() =~= norm_slashes(name));
    }
    assert(path_field_spec(root, path) == name);
    assert(!is_absolute(name));
    assert(path_join(root, name) == root + seq!['/'] + name);
}

} // verus!
