//! The manifest engine: locating dependency tables in a parsed document,
//! reading and mutating them, and keeping `[features]` consistent.

use vstd::prelude::*;
use vstd::string::*;
use crate::errors::Error;
use crate::errors::ErrView;
use crate::errors::invalid_cargo_config;
use crate::errors::non_existent_table_err;
use crate::errors::parse_manifest_err;
use crate::paths::is_absolute;
use crate::paths::parent_dir;
use crate::paths::parent_dir_spec;
use crate::strutil::str_eq;
use crate::strutil::strs;
use crate::tree::doc_item;
use crate::tree::doc_model;
use crate::tree::item_as_bool;
use crate::tree::item_as_str;
use crate::tree::item_clone;
use crate::tree::item_is_array;
use crate::tree::item_is_block_table;
use crate::tree::item_is_table_like;
use crate::tree::item_model;
use crate::tree::item_table_get;
use crate::tree::item_table_keys;
use crate::tree::item_table_len;
use crate::tree::item_array_len;
use crate::tree::item_array_str;
use crate::tree::parse_document;
use crate::tree::parse_toml;
use crate::tree_model::Toml;
use crate::tree_model::tl_has;
use crate::tree_model::tl_keys;
use crate::tree_model::tl_lookup;
use crate::tree_model::tl_set;
use crate::tree_model::tl_unique;
use crate::tree_model::tl_remove;
use crate::dep_toml::all_str;
use crate::dep_toml::read_flag;
use crate::dep_toml::str_values;
use toml_edit::Document;
use toml_edit::Item;

verus! {

/// A node with nothing worth preserving: a plain string, or a table of
/// exactly one entry.
pub open spec fn str_or_1_len(t: Toml) -> bool {
    t is Str || (t.is_table_like() && t.entries().len() == 1)
}

/// Whether the node is a plain string or a table of exactly one entry —
/// the shapes that a merge simply replaces outright.
pub fn str_or_1_len_table(item: &Item) -> (r: bool)
    ensures
        r == str_or_1_len(item_model(*item)),
{
    if item_as_str(item).is_some() {
        true
    } else if item_is_table_like(item) {
        item_table_len(item) == 1
    } else {
        false
    }
}

/// A parsed manifest: a format-preserving document tree plus derived
/// accessors.
#[derive(Debug)]
pub struct Manifest {
    /// Manifest contents as a document tree.
    pub data: Document,
}

impl View for Manifest {
    type V = Toml;

    open spec fn view(&self) -> Toml {
        doc_model(self.data)
    }
}

impl Manifest {
    /// A parsed manifest is a well-formed block table.
    pub open spec fn wf(self) -> bool {
        self@ is Block && self@.wf()
    }
}

/// The manifest's package name: the string under `package.name`, if the
/// document has that shape.
pub open spec fn package_field_spec(t: Toml, field: Seq<char>) -> Option<Seq<char>> {
    match tl_lookup(t.entries(), "package"@) {
        Some(p) => if p.is_table_like() {
            match tl_lookup(p.entries(), field) {
                Some(Toml::Str(s)) => Some(s),
                _ => None,
            }
        } else {
            None
        },
        None => None,
    }
}

/// The fixed, ordered list of table kinds that hold dependencies.
pub open spec fn dep_kinds() -> Seq<Seq<char>> {
    seq!["dependencies"@, "dev-dependencies"@, "build-dependencies"@]
}

/// The section of one kind directly under `t`, when present and
/// table-like, with its path under `prefix`.
pub open spec fn kind_section_at(t: Toml, kind: Seq<char>, prefix: Seq<Seq<char>>) -> Seq<
    (Seq<Seq<char>>, Toml),
> {
    match tl_lookup(t.entries(), kind) {
        Some(v) => if v.is_table_like() {
            seq![(prefix.push(kind), v)]
        } else {
            Seq::empty()
        },
        None => Seq::empty(),
    }
}

/// The sections of the three dependency kinds directly under `t`, in the
/// fixed order.
pub open spec fn kind_sections(t: Toml, prefix: Seq<Seq<char>>) -> Seq<(Seq<Seq<char>>, Toml)> {
    kind_section_at(t, "dependencies"@, prefix) + kind_section_at(t, "dev-dependencies"@, prefix)
        + kind_section_at(t, "build-dependencies"@, prefix)
}

/// The top-level dependency sections present in the document.
pub open spec fn top_sections(t: Toml) -> Seq<(Seq<Seq<char>>, Toml)> {
    kind_sections(t, Seq::empty())
}

/// The sections of the targets from index `i` on, in document order.
pub open spec fn target_sections_from(es: Seq<(Seq<char>, Toml)>, i: int) -> Seq<
    (Seq<Seq<char>>, Toml),
>
    decreases es.len() - i,
{
    if i < 0 || i >= es.len() {
        Seq::empty()
    } else {
        kind_sections(es[i].1, seq!["target"@, es[i].0]) + target_sections_from(es, i + 1)
    }
}

/// The per-target dependency sections: for every key under `target`, in
/// document order, the kinds present there.
pub open spec fn target_sections(t: Toml) -> Seq<(Seq<Seq<char>>, Toml)> {
    match tl_lookup(t.entries(), "target"@) {
        Some(tt) => if tt.is_table_like() {
            target_sections_from(tt.entries(), 0)
        } else {
            Seq::empty()
        },
        None => Seq::empty(),
    }
}

/// Every section of the document that may hold dependencies, with its
/// path: the top-level kinds first, then the per-target ones.
pub open spec fn sections_of(t: Toml) -> Seq<(Seq<Seq<char>>, Toml)> {
    top_sections(t) + target_sections(t)
}

/// View of a vector of section pairs.
pub open spec fn sec_views(v: Seq<(Vec<String>, Item)>) -> Seq<(Seq<Seq<char>>, Toml)> {
    v.map_values(|e: (Vec<String>, Item)| (strs(e.0@), item_model(e.1)))
}

/// The declared `[features]` table as a list of (name, components) pairs;
/// a missing table is empty, and any value that is not an array of strings
/// makes the whole table invalid.
pub open spec fn declared_features(t: Toml) -> Result<Seq<(Seq<char>, Seq<Seq<char>>)>, ErrView> {
    match tl_lookup(t.entries(), "features"@) {
        None => Ok(Seq::empty()),
        Some(Toml::Block(fes)) => declared_features_rec(fes),
        Some(_) => Err(ErrView::InvalidCargoConfig),
    }
}

pub open spec fn declared_features_rec(fes: Seq<(Seq<char>, Toml)>) -> Result<
    Seq<(Seq<char>, Seq<Seq<char>>)>,
    ErrView,
>
    decreases fes.len(),
{
    if fes.len() == 0 {
        Ok(Seq::empty())
    } else {
        match fes[0].1 {
            Toml::Arr(vs) => if all_str(vs) {
                match declared_features_rec(fes.drop_first()) {
                    Ok(rest) => Ok(seq![(fes[0].0, str_values(vs))] + rest),
                    Err(e) => Err(e),
                }
            } else {
                Err(ErrView::InvalidCargoConfig)
            },
            _ => Err(ErrView::InvalidCargoConfig),
        }
    }
}

/// The names already used in a feature list.
pub open spec fn feat_keys(fs: Seq<(Seq<char>, Seq<Seq<char>>)>) -> Seq<Seq<char>> {
    fs.map_values(|e: (Seq<char>, Seq<Seq<char>>)| e.0)
}

/// Adds, for every dependency of the section that is marked optional, an
/// implicit feature named after its key with no components — unless a
/// feature of that name is already there.
pub open spec fn implicit_features_of_section(
    acc: Seq<(Seq<char>, Seq<Seq<char>>)>,
    es: Seq<(Seq<char>, Toml)>,
) -> Seq<(Seq<char>, Seq<Seq<char>>)>
    decreases es.len(),
{
    if es.len() == 0 {
        acc
    } else {
        let acc2 = if es[0].1.is_table_like() && read_flag(es[0].1.entries(), "optional"@)
            == Some(true) && !feat_keys(acc).contains(es[0].0) {
            acc.push((es[0].0, Seq::empty()))
        } else {
            acc
        };
        implicit_features_of_section(acc2, es.drop_first())
    }
}

pub open spec fn implicit_features_rec(
    acc: Seq<(Seq<char>, Seq<Seq<char>>)>,
    secs: Seq<(Seq<Seq<char>>, Toml)>,
) -> Seq<(Seq<char>, Seq<Seq<char>>)>
    decreases secs.len(),
{
    if secs.len() == 0 {
        acc
    } else {
        implicit_features_rec(
            implicit_features_of_section(acc, secs[0].1.entries()),
            secs.drop_first(),
        )
    }
}

/// The features the manifest exposes: the declared table, extended by an
/// implicit empty feature for every optional dependency of every section
/// whose name is not already taken.
pub open spec fn features_spec(t: Toml) -> Result<Seq<(Seq<char>, Seq<Seq<char>>)>, ErrView> {
    match declared_features(t) {
        Err(e) => Err(e),
        Ok(declared) => Ok(implicit_features_rec(declared, sections_of(t))),
    }
}

/// View of a feature list.
pub open spec fn feats_view(v: Seq<(String, Vec<String>)>) -> Seq<(Seq<char>, Seq<Seq<char>>)> {
    v.map_values(|e: (String, Vec<String>)| (e.0@, strs(e.1@)))
}

/// Descends a dot-path of segments for reading: every step must find a
/// table-like value; the failing segment is reported otherwise.
pub open spec fn rdescend(t: Toml, path: Seq<Seq<char>>) -> Result<Toml, Seq<char>>
    decreases path.len(),
{
    if path.len() == 0 {
        Ok(t)
    } else {
        match tl_lookup(t.entries(), path[0]) {
            None => Err(path[0]),
            Some(v) => if v.is_table_like() {
                rdescend(v, path.drop_first())
            } else {
                Err(path[0])
            },
        }
    }
}

impl Manifest {
    /// Parses manifest text; fails exactly on text that is not valid TOML,
    /// with the parser's words as detail.
    pub fn from_str(input: &str) -> (r: Result<Manifest, Error>)
        ensures
            r is Ok <==> parse_toml(input@) is Some,
            r matches Ok(m) ==> m@ == parse_toml(input@)->Some_0 && m.wf(),
            r matches Err(e) ==> e@ is InvalidToml,
    {
        match parse_document(input) {
            Ok(d) => Ok(Manifest { data: d }),
            Err(detail) => Err(Error::InvalidToml { detail }),
        }
    }

    /// The package's name, when the document declares one.
    pub fn package_name(&self) -> (r: Result<&str, Error>)
        ensures
            (match r {
                Ok(s) => package_field_spec(self@, "name"@) == Some(s@),
                Err(e) => package_field_spec(self@, "name"@) is None && e@
                    == ErrView::ParseManifest,
            }),
    {
        let root = doc_item(&self.data);
        match item_table_get(root, "package") {
            Some(p) => match item_table_get(p, "name") {
                Some(v) => match item_as_str(v) {
                    Some(s) => Ok(s),
                    None => Err(parse_manifest_err()),
                },
                None => Err(parse_manifest_err()),
            },
            None => Err(parse_manifest_err()),
        }
    }

    /// The package's version, when the document declares one.
    pub fn package_version(&self) -> (r: Result<&str, Error>)
        ensures
            (match r {
                Ok(s) => package_field_spec(self@, "version"@) == Some(s@),
                Err(e) => package_field_spec(self@, "version"@) is None && e@
                    == ErrView::ParseManifest,
            }),
    {
        let root = doc_item(&self.data);
        match item_table_get(root, "package") {
            Some(p) => match item_table_get(p, "version") {
                Some(v) => match item_as_str(v) {
                    Some(s) => Ok(s),
                    None => Err(parse_manifest_err()),
                },
                None => Err(parse_manifest_err()),
            },
            None => Err(parse_manifest_err()),
        }
    }

    /// The table under the given dot-path of segments; fails, naming the
    /// segment, where a step is absent or not table-like.
    pub fn get_table<'a>(&'a self, table_path: &[String]) -> (r: Result<&'a Item, Error>)
        ensures
            (match r {
                Ok(v) => rdescend(self@, strs(table_path@)) == Ok::<Toml, Seq<char>>(
                    item_model(*v),
                ),
                Err(e) => {
                    &&& rdescend(self@, strs(table_path@)) matches Err(seg)
                    &&& e@ == (ErrView::NonExistentTable {
                        table: rdescend(self@, strs(table_path@))->Err_0,
                    })
                },
            }),
    {
        let ghost gpath = strs(table_path@);
        let mut cur: &Item = doc_item(&self.data);
        let mut i: usize = 0;
        proof {
            assert(gpath.skip(0) =~= gpath);
        }
        while i < table_path.len()
            invariant
                strs(table_path@) == gpath,
                0 <= i <= gpath.len(),
                rdescend(self@, gpath) == rdescend(item_model(*cur), gpath.skip(i as int)),
            decreases gpath.len() - i,
        {
            proof {
                assert(gpath.skip(i as int)[0] == gpath[i as int]);
                assert(gpath.skip(i as int).drop_first() =~= gpath.skip(i as int + 1));
            }
            let seg = &table_path[i];
            match item_table_get(cur, seg.as_str()) {
                None => {
                    return Err(non_existent_table_err(seg.as_str()));
                },
                Some(v) => {
                    if item_is_table_like(v) {
                        cur = v;
                    } else {
                        return Err(non_existent_table_err(seg.as_str()));
                    }
                },
            }
            i = i + 1;
        }
        proof {
            assert(gpath.skip(gpath.len() as int).len() == 0);
        }
        Ok(cur)
    }

    /// Every section of the document that may hold dependencies, paired
    /// with its path: the top-level kinds first, then, for each key under
    /// `target` in document order, the kinds present there.  The items are
    /// deep copies.
    #[verifier::loop_isolation(false)]
    pub fn get_sections(&self) -> (r: Vec<(Vec<String>, Item)>)
        requires
            self.wf(),
        ensures
            sec_views(r@) == sections_of(self@),
    {
        let root = doc_item(&self.data);
        let mut out: Vec<(Vec<String>, Item)> = Vec::new();
        proof {
            assert(sec_views(out@) =~= Seq::<(Seq<Seq<char>>, Toml)>::empty());
        }
        push_kind_sections(root, None, &mut out);
        proof {
            assert(sec_views(out@) =~= top_sections(self@));
        }
        match item_table_get(root, "target") {
            Some(tt) => {
                if item_is_table_like(tt) {
                    let ghost tes = item_model(*tt).entries();
                    proof {
                        crate::tree_model::lemma_lookup_wf(self@.entries(), "target"@);
                    }
                    let names = item_table_keys(tt);
                    proof {
                        assert(names@.len() == tes.len()) by {
                            assert(strs(names@).len() == tl_keys(tes).len());
                        }
                    }
                    let mut i: usize = 0;
                    while i < names.len()
                        invariant
                            names@.len() == tes.len(),
                            0 <= i <= tes.len(),
                            sec_views(out@) + target_sections_from(tes, i as int) == sections_of(
                                self@,
                            ),
                        decreases names.len() - i,
                    {
                        proof {
                            assert(strs(names@)[i as int] == tl_keys(tes)[i as int]);
                            assert(names@[i as int]@ == tes[i as int].0);
                            crate::tree_model::lemma_lookup_index(tes, i as int);
                        }
                        match item_table_get(tt, names[i].as_str()) {
                            Some(ttable) => {
                                let ghost before = sec_views(out@);
                                push_kind_sections(ttable, Some(&names[i]), &mut out);
                                proof {
                                    assert(sec_views(out@) + target_sections_from(
                                        tes,
                                        i as int + 1,
                                    ) =~= sections_of(self@));
                                }
                            },
                            None => {
                                proof {
                                    assert(false);
                                }
                            },
                        }
                        i = i + 1;
                    }
                    proof {
                        assert(sec_views(out@) + target_sections_from(tes, tes.len() as int)
                            =~= sec_views(out@));
                    }
                }
            },
            None => {},
        }
        proof {
            assert(sec_views(out@) =~= sections_of(self@));
        }
        out
    }
}

/// Appends the section of one kind found directly under `t`, keyed under
/// the target's name when one is given.
fn push_one_kind(
    t: &Item,
    target_name: Option<&String>,
    kind: &str,
    out: &mut Vec<(Vec<String>, Item)>,
)
    ensures
        sec_views(final(out)@) == sec_views(old(out)@) + kind_section_at(
            item_model(*t),
            kind@,
            match target_name {
                Some(n) => seq!["target"@, n@],
                None => Seq::empty(),
            },
        ),
{
    let ghost prefix: Seq<Seq<char>> = match target_name {
        Some(n) => seq!["target"@, n@],
        None => Seq::empty(),
    };
    match item_table_get(t, kind) {
        Some(v) => {
            if item_is_table_like(v) {
                let mut path: Vec<String> = Vec::new();
                match target_name {
                    Some(n) => {
                        path.push("target".to_owned());
                        path.push(n.clone());
                    },
                    None => {},
                }
                path.push(kind.to_owned());
                proof {
                    reveal_strlit("target");
                    assert(strs(path@) =~= prefix.push(kind@));
                }
                let copy = item_clone(v);
                let ghost before = out@;
                out.push((path, copy));
                proof {
                    assert(out@.drop_last() =~= before);
                    assert(sec_views(out@) =~= sec_views(before).push(
                        (strs(path@), item_model(*v)),
                    ));
                    assert(sec_views(out@) =~= sec_views(before) + kind_section_at(
                        item_model(*t),
                        kind@,
                        prefix,
                    ));
                }
            } else {
                proof {
                    assert(sec_views(out@) =~= sec_views(out@) + kind_section_at(
                        item_model(*t),
                        kind@,
                        prefix,
                    ));
                }
            }
        },
        None => {
            proof {
                assert(sec_views(out@) =~= sec_views(out@) + kind_section_at(
                    item_model(*t),
                    kind@,
                    prefix,
                ));
            }
        },
    }
}

/// Appends the sections of the three dependency kinds found directly under
/// `t`, keyed under the target's name when one is given.
fn push_kind_sections(t: &Item, target_name: Option<&String>, out: &mut Vec<(Vec<String>, Item)>)
    ensures
        sec_views(final(out)@) == sec_views(old(out)@) + kind_sections(
            item_model(*t),
            match target_name {
                Some(n) => seq!["target"@, n@],
                None => Seq::empty(),
            },
        ),
{
    push_one_kind(t, target_name, "dependencies", out);
    push_one_kind(t, target_name, "dev-dependencies", out);
    push_one_kind(t, target_name, "build-dependencies", out);
    proof {
        let prefix: Seq<Seq<char>> = match target_name {
            Some(n) => seq!["target"@, n@],
            None => Seq::empty(),
        };
        assert(sec_views(out@) =~= sec_views(old(out)@) + kind_sections(item_model(*t), prefix));
    }
}


/// Every section of a well-formed document is itself well formed.
pub proof fn lemma_sections_wf(t: Toml)
    requires
        t.wf(),
    ensures
        forall|i: int|
            0 <= i < sections_of(t).len() ==> ((#[trigger] sections_of(t)[i]).1.wf()
                && sections_of(t)[i].1.is_table_like()),
{
    lemma_kind_sections_wf(t, Seq::empty());
    match tl_lookup(t.entries(), "target"@) {
        Some(tt) => {
            if tt.is_table_like() {
                crate::tree_model::lemma_lookup_wf(t.entries(), "target"@);
                lemma_target_sections_wf(tt.entries(), 0);
            }
        },
        None => {},
    }
    assert forall|i: int| 0 <= i < sections_of(t).len() implies ((#[trigger] sections_of(
        t,
    )[i]).1.wf() && sections_of(t)[i].1.is_table_like()) by {
        let tops = top_sections(t);
        if i < tops.len() {
            assert(sections_of(t)[i] == tops[i]);
        } else {
            assert(sections_of(t)[i] == target_sections(t)[i - tops.len()]);
        }
    }
}

proof fn lemma_kind_sections_wf(t: Toml, prefix: Seq<Seq<char>>)
    requires
        t.wf(),
    ensures
        forall|i: int|
            0 <= i < kind_sections(t, prefix).len() ==> ((#[trigger] kind_sections(t, prefix)[i]).1.wf()
                && kind_sections(t, prefix)[i].1.is_table_like()),
{
    lemma_kind_section_at_wf(t, "dependencies"@, prefix);
    lemma_kind_section_at_wf(t, "dev-dependencies"@, prefix);
    lemma_kind_section_at_wf(t, "build-dependencies"@, prefix);
    assert forall|i: int| 0 <= i < kind_sections(t, prefix).len() implies ((#[trigger] kind_sections(
        t,
        prefix,
    )[i]).1.wf() && kind_sections(t, prefix)[i].1.is_table_like()) by {
        let a = kind_section_at(t, "dependencies"@, prefix);
        let b = kind_section_at(t, "dev-dependencies"@, prefix);
        let c = kind_section_at(t, "build-dependencies"@, prefix);
        if i < a.len() {
            assert(kind_sections(t, prefix)[i] == a[i]);
        } else if i < a.len() + b.len() {
            assert(kind_sections(t, prefix)[i] == b[i - a.len()]);
        } else {
            assert(kind_sections(t, prefix)[i] == c[i - a.len() - b.len()]);
        }
    }
}

proof fn lemma_kind_section_at_wf(t: Toml, kind: Seq<char>, prefix: Seq<Seq<char>>)
    requires
        t.wf(),
    ensures
        forall|i: int|
            0 <= i < kind_section_at(t, kind, prefix).len() ==> ((#[trigger] kind_section_at(
                t,
                kind,
                prefix,
            )[i]).1.wf() && kind_section_at(t, kind, prefix)[i].1.is_table_like()),
{
    if t.is_table_like() && tl_has(t.entries(), kind) {
        crate::tree_model::lemma_lookup_wf(t.entries(), kind);
    }
}

proof fn lemma_target_sections_wf(es: Seq<(Seq<char>, Toml)>, from: int)
    requires
        crate::tree_model::tl_vals_wf(es),
    ensures
        forall|i: int|
            0 <= i < target_sections_from(es, from).len() ==> ((#[trigger] target_sections_from(
                es,
                from,
            )[i]).1.wf() && target_sections_from(es, from)[i].1.is_table_like()),
    decreases es.len() - from,
{
    if 0 <= from < es.len() {
        lemma_kind_sections_wf(es[from].1, seq!["target"@, es[from].0]);
        lemma_target_sections_wf(es, from + 1);
        assert forall|i: int| 0 <= i < target_sections_from(es, from).len() implies ((
        #[trigger] target_sections_from(es, from)[i]).1.wf() && target_sections_from(
            es,
            from,
        )[i].1.is_table_like()) by {
            let head = kind_sections(es[from].1, seq!["target"@, es[from].0]);
            if i < head.len() {
                assert(target_sections_from(es, from)[i] == head[i]);
            } else {
                assert(target_sections_from(es, from)[i] == target_sections_from(es, from + 1)[i
                    - head.len()]);
            }
        }
    }
}

/// Whether one of the feature names is `x`.
fn feats_contain(v: &Vec<(String, Vec<String>)>, x: &str) -> (r: bool)
    ensures
        r == feat_keys(feats_view(v@)).contains(x@),
{
    let mut i: usize = 0;
    while i < v.len()
        invariant
            0 <= i <= v.len(),
            forall|j: int| 0 <= j < i ==> feat_keys(feats_view(v@))[j] != x@,
        decreases v.len() - i,
    {
        if str_eq(v[i].0.as_str(), x) {
            assert(feat_keys(feats_view(v@))[i as int] == x@);
            return true;
        }
        i = i + 1;
    }
    false
}

impl Manifest {
    /// The features this manifest exposes: the declared `[features]` table
    /// (every value must be an array of strings), extended by an implicit
    /// empty feature for every optional dependency of every section whose
    /// name is not already taken.
    #[verifier::loop_isolation(false)]
    pub fn features(&self) -> (r: Result<Vec<(String, Vec<String>)>, Error>)
        requires
            self.wf(),
        ensures
            (match r {
                Ok(fs) => features_spec(self@) == Ok::<Seq<(Seq<char>, Seq<Seq<char>>)>, ErrView>(
                    feats_view(fs@),
                ),
                Err(e) => features_spec(self@) == Err::<
                    Seq<(Seq<char>, Seq<Seq<char>>)>,
                    ErrView,
                >(e@),
            }),
    {
        let root = doc_item(&self.data);
        let mut out: Vec<(String, Vec<String>)> = Vec::new();
        proof {
            assert(feats_view(out@) =~= Seq::<(Seq<char>, Seq<Seq<char>>)>::empty());
        }
        match item_table_get(root, "features") {
            None => {},
            Some(f) => {
                if !item_is_block_table(f) {
                    return Err(invalid_cargo_config());
                }
                let ghost fes = item_model(*f).entries();
                proof {
                    crate::tree_model::lemma_lookup_wf(self@.entries(), "features"@);
                    assert(fes.skip(0) =~= fes);
                }
                let keys = item_table_keys(f);
                proof {
                    assert(keys@.len() == fes.len()) by {
                        assert(strs(keys@).len() == tl_keys(fes).len());
                    }
                }
                let mut i: usize = 0;
                while i < keys.len()
                    invariant
                        0 <= i <= fes.len(),
                        declared_features_rec(fes) == (match declared_features_rec(
                            fes.skip(i as int),
                        ) {
                            Ok(rest) => Ok::<Seq<(Seq<char>, Seq<Seq<char>>)>, ErrView>(
                                feats_view(out@) + rest,
                            ),
                            Err(e) => Err(e),
                        }),
                    decreases keys.len() - i,
                {
                    proof {
                        assert(strs(keys@)[i as int] == tl_keys(fes)[i as int]);
                        assert(keys@[i as int]@ == fes[i as int].0);
                        crate::tree_model::lemma_lookup_index(fes, i as int);
                        assert(fes.skip(i as int)[0] == fes[i as int]);
                        assert(fes.skip(i as int).drop_first() =~= fes.skip(i as int + 1));
                    }
                    match item_table_get(f, keys[i].as_str()) {
                        Some(v) => {
                            if !item_is_array(v) {
                                return Err(invalid_cargo_config());
                            }
                            let ghost vs = item_model(*v)->Arr_0;
                            let n = item_array_len(v);
                            let mut vals: Vec<String> = Vec::new();
                            let mut j: usize = 0;
                            proof {
                                assert(strs(vals@) =~= str_values(vs.take(0)));
                            }
                            while j < n
                                invariant
                                    0 <= j <= n,
                                    n == vs.len(),
                                    item_model(*v) == Toml::Arr(vs),
                                    forall|w: int| 0 <= w < j ==> (#[trigger] vs[w]) is Str,
                                    strs(vals@) == str_values(vs.take(j as int)),
                                decreases n - j,
                            {
                                match item_array_str(v, j) {
                                    Some(sv) => {
                                        let ghost before = vals@;
                                        vals.push(sv);
                                        proof {
                                            assert(vals@.drop_last() =~= before);
                                            assert(strs(vals@) =~= strs(before).push(
                                                vs[j as int]->Str_0,
                                            ));
                                            assert(vs.take(j as int + 1) =~= vs.take(
                                                j as int,
                                            ).push(vs[j as int]));
                                            assert(str_values(vs.take(j as int + 1))
                                                =~= str_values(vs.take(j as int)).push(
                                                vs[j as int]->Str_0,
                                            ));
                                        }
                                    },
                                    None => {
                                        return Err(invalid_cargo_config());
                                    },
                                }
                                j = j + 1;
                            }
                            proof {
                                assert(vs.take(n as int) =~= vs);
                                assert(all_str(vs));
                            }
                            let ghost before = out@;
                            out.push((keys[i].clone(), vals));
                            proof {
                                assert(out@.drop_last() =~= before);
                                assert(feats_view(out@) =~= feats_view(before).push(
                                    (fes[i as int].0, str_values(vs)),
                                ));
                                assert(feats_view(before) + (seq![
                                    (fes[i as int].0, str_values(vs)),
                                ] + declared_features_rec(fes.skip(i as int + 1))->Ok_0)
                                    =~= feats_view(out@) + declared_features_rec(
                                    fes.skip(i as int + 1),
                                )->Ok_0);
                            }
                        },
                        None => {
                            proof {
                                assert(false);
                            }
                        },
                    }
                    i = i + 1;
                }
                proof {
                    assert(fes.skip(fes.len() as int).len() == 0);
                    assert(feats_view(out@) + Seq::<(Seq<char>, Seq<Seq<char>>)>::empty()
                        =~= feats_view(out@));
                }
            },
        }
        proof {
            assert(declared_features(self@) == Ok::<Seq<(Seq<char>, Seq<Seq<char>>)>, ErrView>(
                feats_view(out@),
            ));
        }
        let sections = self.get_sections();
        let ghost gsecs = sections_of(self@);
        let ghost declared = feats_view(out@);
        let mut si: usize = 0;
        proof {
            assert(sections@.len() == gsecs.len()) by {
                assert(sec_views(sections@).len() == gsecs.len());
            }
        }
        proof {
            assert(gsecs.skip(0) =~= gsecs);
            lemma_sections_wf(self@);
        }
        while si < sections.len()
            invariant
                0 <= si <= gsecs.len(),
                implicit_features_rec(feats_view(out@), gsecs.skip(si as int))
                    == implicit_features_rec(declared, gsecs),
            decreases sections.len() - si,
        {
            proof {
                assert(sec_views(sections@)[si as int] == gsecs[si as int]);
                assert(gsecs.skip(si as int)[0] == gsecs[si as int]);
                assert(gsecs.skip(si as int).drop_first() =~= gsecs.skip(si as int + 1));
            }
            let sec_item = &sections[si].1;
            let ghost ses = item_model(*sec_item).entries();
            proof {
                assert(ses.skip(0) =~= ses);
                lemma_sections_wf(self@);
                assert(sec_views(sections@)[si as int] == gsecs[si as int]);
                assert(item_model(*sec_item) == gsecs[si as int].1);
                assert(item_model(*sec_item).wf());
                assert(item_model(*sec_item).is_table_like());
            }
            let dep_keys = item_table_keys(sec_item);
            proof {
                assert(dep_keys@.len() == ses.len()) by {
                    assert(strs(dep_keys@).len() == tl_keys(ses).len());
                }
            }
            let ghost sec_start = feats_view(out@);
            let mut di: usize = 0;
            while di < dep_keys.len()
                invariant
                    0 <= di <= ses.len(),
                    implicit_features_of_section(feats_view(out@), ses.skip(di as int))
                        == implicit_features_of_section(sec_start, ses),
                decreases dep_keys.len() - di,
            {
                proof {
                    assert(strs(dep_keys@)[di as int] == tl_keys(ses)[di as int]);
                    assert(dep_keys@[di as int]@ == ses[di as int].0);
                    crate::tree_model::lemma_lookup_index(ses, di as int);
                    assert(ses.skip(di as int)[0] == ses[di as int]);
                    assert(ses.skip(di as int).drop_first() =~= ses.skip(di as int + 1));
                }
                match item_table_get(sec_item, dep_keys[di].as_str()) {
                    Some(e) => {
                        if item_is_table_like(e) {
                            let opt = match item_table_get(e, "optional") {
                                Some(o) => item_as_bool(o),
                                None => None,
                            };
                            if opt == Some(true) {
                                if !feats_contain(&out, dep_keys[di].as_str()) {
                                    let ghost before = out@;
                                    out.push((dep_keys[di].clone(), Vec::new()));
                                    proof {
                                        assert(out@.drop_last() =~= before);
                                        assert(strs(Seq::<String>::empty())
                                            =~= Seq::<Seq<char>>::empty());
                                        assert(feats_view(out@) =~= feats_view(before).push(
                                            (ses[di as int].0, Seq::<Seq<char>>::empty()),
                                        ));
                                    }
                                }
                            }
                        }
                    },
                    None => {
                        proof {
                            assert(false);
                        }
                    },
                }
                di = di + 1;
            }
            proof {
                assert(ses.skip(ses.len() as int).len() == 0);
            }
            si = si + 1;
        }
        Ok(out)
    }
}


/// The value a write-path descent steps into: the bound value, or the
/// fresh empty table (of the parent's style) that the step would create.
pub open spec fn wchild(t: Toml, k: Seq<char>) -> Toml {
    match tl_lookup(t.entries(), k) {
        Some(v) => v,
        None => crate::tree_model::empty_like(t),
    }
}

/// Whether a write-path descent runs through: every step must reach a
/// table-like value, counting the empty tables it would create.
pub open spec fn wdescend_ok(t: Toml, path: Seq<Seq<char>>) -> bool
    decreases path.len(),
{
    path.len() == 0 || (wchild(t, path[0]).is_table_like() && wdescend_ok(
        wchild(t, path[0]),
        path.drop_first(),
    ))
}

/// The table a write-path descent reaches.
pub open spec fn wdescend_get(t: Toml, path: Seq<Seq<char>>) -> Toml
    decreases path.len(),
{
    if path.len() == 0 {
        t
    } else {
        wdescend_get(wchild(t, path[0]), path.drop_first())
    }
}

/// The document after a write-path descent replaced the reached table by
/// `v`, materializing the empty tables it created on the way.
pub open spec fn wdescend_set(t: Toml, path: Seq<Seq<char>>, v: Toml) -> Toml
    decreases path.len(),
{
    if path.len() == 0 {
        v
    } else {
        t.with_entries(
            tl_set(t.entries(), path[0], wdescend_set(wchild(t, path[0]), path.drop_first(), v)),
        )
    }
}

/// The first segment at which a write-path descent meets an existing value
/// that is not table-like.
pub open spec fn wdescend_err(t: Toml, path: Seq<Seq<char>>) -> Seq<char>
    decreases path.len(),
{
    if path.len() == 0 {
        Seq::empty()
    } else if !wchild(t, path[0]).is_table_like() {
        path[0]
    } else {
        wdescend_err(wchild(t, path[0]), path.drop_first())
    }
}

/// A descent into an empty table always runs through: every further step
/// creates another empty table.
proof fn lemma_wdescend_ok_empty(t: Toml, path: Seq<Seq<char>>)
    requires
        t.is_table_like(),
        t.entries().len() == 0,
    ensures
        wdescend_ok(t, path),
    decreases path.len(),
{
    if path.len() > 0 {
        lemma_wdescend_ok_empty(crate::tree_model::empty_like(t), path.drop_first());
    }
}

/// The table a descent reaches in a well-formed document is well formed.
proof fn lemma_wdescend_get_wf(t: Toml, path: Seq<Seq<char>>)
    requires
        t.wf(),
    ensures
        wdescend_get(t, path).wf(),
    decreases path.len(),
{
    if path.len() > 0 {
        if tl_has(t.entries(), path[0]) {
            crate::tree_model::lemma_lookup_wf(t.entries(), path[0]);
        }
        lemma_wdescend_get_wf(wchild(t, path[0]), path.drop_first());
    }
}

/// Replacing the reached table by a well-formed value keeps the document
/// well formed.
proof fn lemma_wdescend_set_wf(t: Toml, path: Seq<Seq<char>>, v: Toml)
    requires
        t.wf(),
        v.wf(),
    ensures
        wdescend_set(t, path, v).wf(),
    decreases path.len(),
{
    if path.len() > 0 {
        if tl_has(t.entries(), path[0]) {
            crate::tree_model::lemma_lookup_wf(t.entries(), path[0]);
        }
        lemma_wdescend_set_wf(wchild(t, path[0]), path.drop_first(), v);
        if t.is_table_like() {
            crate::tree_model::lemma_set_unique(
                t.entries(),
                path[0],
                wdescend_set(wchild(t, path[0]), path.drop_first(), v),
            );
            crate::tree_model::lemma_set_vals_wf(
                t.entries(),
                path[0],
                wdescend_set(wchild(t, path[0]), path.drop_first(), v),
            );
        }
    }
}


/// A descent that runs through lands on a table.
proof fn lemma_wdescend_get_table_like(t: Toml, path: Seq<Seq<char>>)
    requires
        t.is_table_like(),
        wdescend_ok(t, path),
    ensures
        wdescend_get(t, path).is_table_like(),
    decreases path.len(),
{
    if path.len() > 0 {
        lemma_wdescend_get_table_like(wchild(t, path[0]), path.drop_first());
    }
}

/// Descends the dot-path for writing, creating empty tables for missing
/// segments; defined only where the descent runs through.
fn descend_mut<'a>(input: &'a mut Item, path: &[String], idx: usize) -> (r: &'a mut Item)
    requires
        idx <= path@.len(),
        idx < path@.len() ==> item_model(*old(input)).is_table_like(),
        wdescend_ok(item_model(*old(input)), strs(path@).skip(idx as int)),
    ensures
        item_model(*r) == wdescend_get(item_model(*old(input)), strs(path@).skip(idx as int)),
        item_model(*final(input)) == wdescend_set(
            item_model(*old(input)),
            strs(path@).skip(idx as int),
            item_model(*final(r)),
        ),
    decreases path@.len() - idx,
{
    let ghost rest = strs(path@).skip(idx as int);
    if idx == path.len() {
        proof {
            assert(rest.len() == 0);
        }
        return input;
    }
    proof {
        assert(rest[0] == strs(path@)[idx as int]);
        assert(rest.drop_first() =~= strs(path@).skip(idx as int + 1));
    }
    let seg = vstd::slice::slice_index_get(path, idx);
    let child = crate::tree::item_or_insert_table(input, seg.as_str());
    descend_mut(child, path, idx + 1)
}

/// Checks, without touching anything, whether the write-path descent will
/// run through, reporting the first offending segment otherwise.
fn descend_check(input: &Item, path: &[String]) -> (r: Result<(), Error>)
    ensures
        (match r {
            Ok(_) => wdescend_ok(item_model(*input), strs(path@)),
            Err(e) => !wdescend_ok(item_model(*input), strs(path@)) && e@
                == (ErrView::NonExistentTable {
                table: wdescend_err(item_model(*input), strs(path@)),
            }),
        }),
{
    let ghost gpath = strs(path@);
    let mut cur: &Item = input;
    let mut i: usize = 0;
    proof {
        assert(gpath.skip(0) =~= gpath);
    }
    while i < path.len()
        invariant
            strs(path@) == gpath,
            0 <= i <= gpath.len(),
            wdescend_ok(item_model(*input), gpath) == wdescend_ok(
                item_model(*cur),
                gpath.skip(i as int),
            ),
            !wdescend_ok(item_model(*input), gpath) ==> wdescend_err(item_model(*input), gpath)
                == wdescend_err(item_model(*cur), gpath.skip(i as int)),
        decreases gpath.len() - i,
    {
        proof {
            assert(gpath.skip(i as int)[0] == gpath[i as int]);
            assert(gpath.skip(i as int).drop_first() =~= gpath.skip(i as int + 1));
        }
        let seg = vstd::slice::slice_index_get(path, i);
        match item_table_get(cur, seg.as_str()) {
            None => {
                proof {
                    lemma_wdescend_ok_empty(
                        crate::tree_model::empty_like(item_model(*cur)),
                        gpath.skip(i as int).drop_first(),
                    );
                }
                return Ok(());
            },
            Some(v) => {
                if item_is_table_like(v) {
                    cur = v;
                } else {
                    return Err(non_existent_table_err(seg.as_str()));
                }
            },
        }
        i = i + 1;
    }
    proof {
        assert(gpath.skip(gpath.len() as int).len() == 0);
    }
    Ok(())
}

impl Manifest {
    /// The table under the given dot-path of segments, created on the way
    /// where missing; fails, naming the segment, where an existing value
    /// is not table-like — and then the document is untouched.
    pub fn get_table_mut<'a>(&'a mut self, table_path: &[String]) -> (r: Result<
        &'a mut Item,
        Error,
    >)
        requires
            old(self).wf(),
        ensures
            r is Ok <==> wdescend_ok(old(self)@, strs(table_path@)),
            r matches Err(e) ==> e@ == (ErrView::NonExistentTable {
                table: wdescend_err(old(self)@, strs(table_path@)),
            }) && final(self)@ == old(self)@,
            r matches Ok(m) ==> item_model(*m) == wdescend_get(old(self)@, strs(table_path@)),
            r matches Ok(m) ==> final(self)@ == wdescend_set(
                old(self)@,
                strs(table_path@),
                item_model(*final(m)),
            ),
    {
        match descend_check(doc_item(&self.data), table_path) {
            Err(e) => Err(e),
            Ok(_) => {
                proof {
                    assert(strs(table_path@).skip(0) =~= strs(table_path@));
                }
                let root = crate::tree::doc_item_mut(&mut self.data);
                Ok(descend_mut(root, table_path, 0))
            },
        }
    }
}

/// What an insert leaves in the reached dependency table: the entry under
/// the dependency's key is merged when present and freshly written when
/// not.
pub open spec fn insert_spec(doc: Toml, path: Seq<Seq<char>>, d: crate::dependency::DepView, root: Seq<char>) -> Toml {
    let tbl = wdescend_get(doc, path);
    let key = d.toml_key();
    let newnode = match tl_lookup(tbl.entries(), key) {
        Some(existing) => crate::dep_toml::update_toml_spec(d, root, existing),
        None => crate::dep_toml::dep_to_toml_spec(d, root),
    };
    wdescend_set(doc, path, tbl.with_entries(tl_set(tbl.entries(), key, newnode)))
}

/// A manifest available at a path in a workspace.
#[derive(Debug)]
pub struct LocalManifest {
    /// Path of the manifest file, absolute and slash-separated.
    pub path: String,
    /// Manifest contents.
    pub manifest: Manifest,
}

impl LocalManifest {
    /// The manifest file's path is absolute and its contents are well
    /// formed.
    pub open spec fn wf(self) -> bool {
        is_absolute(self.path@) && self.manifest.wf()
    }

    /// Wraps parsed contents found at an absolute path.
    pub fn new(path: String, manifest: Manifest) -> (r: LocalManifest)
        requires
            is_absolute(path@),
            manifest.wf(),
        ensures
            r.wf(),
            r.path == path,
            r.manifest@ == manifest@,
    {
        LocalManifest { path, manifest }
    }

    /// Adds a dependency entry to the table under `table_path`, creating
    /// the table where missing: an existing entry under the dependency's
    /// key is merged with the smallest possible diff, a missing one is
    /// freshly written.
    pub fn insert_into_table(&mut self, table_path: &[String], dep: &crate::dependency::Dependency) -> (r: Result<(), Error>)
        requires
            old(self).wf(),
            dep@.wf(),
            crate::dep_toml::path_diff_defined(dep@, parent_dir_spec(old(self).path@)),
        ensures
            final(self).path == old(self).path,
            final(self).wf(),
            r is Ok <==> wdescend_ok(old(self).manifest@, strs(table_path@)),
            r matches Ok(_) ==> final(self).manifest@ == insert_spec(
                old(self).manifest@,
                strs(table_path@),
                dep@,
                parent_dir_spec(old(self).path@),
            ),
            r matches Err(e) ==> e@ == (ErrView::NonExistentTable {
                table: wdescend_err(old(self).manifest@, strs(table_path@)),
            }) && final(self).manifest@ == old(self).manifest@,
    {
        proof {
            crate::paths::lemma_parent_abs(self.path@);
        }
        let crate_root = parent_dir(self.path.as_str());
        let dep_key = dep.toml_key().to_owned();
        match descend_check(doc_item(&self.manifest.data), table_path) {
            Err(e) => {
                return Err(e);
            },
            Ok(_) => {},
        }
        let ghost doc0 = self.manifest@;
        let ghost gpath = strs(table_path@);
        proof {
            assert(gpath.skip(0) =~= gpath);
            lemma_wdescend_get_wf(doc0, gpath);
            lemma_wdescend_get_table_like(doc0, gpath);
        }
        let root = crate::tree::doc_item_mut(&mut self.manifest.data);
        let table = descend_mut(root, table_path, 0);
        let ghost tbl = item_model(*table);
        let exists = item_table_get(table, dep_key.as_str()).is_some();
        let ghost key = dep@.toml_key();
        let ghost root_view = parent_dir_spec(self.path@);
        if exists {
            proof {
                crate::tree_model::lemma_lookup_wf(tbl.entries(), dep_key@);
            }
            let entry = crate::tree::item_or_insert_table(table, dep_key.as_str());
            dep.update_toml(crate_root.as_str(), entry);
            proof {
                let newnode = crate::dep_toml::update_toml_spec(
                    dep@,
                    root_view,
                    tl_lookup(tbl.entries(), key)->Some_0,
                );
                assert(item_model(*table) == tbl.with_entries(
                    tl_set(tbl.entries(), key, newnode),
                ));
                assert(newnode.wf());
                crate::tree_model::lemma_set_unique(tbl.entries(), key, newnode);
                crate::tree_model::lemma_set_vals_wf(tbl.entries(), key, newnode);
                assert(item_model(*table).wf());
            }
        } else {
            let node = dep.to_toml(crate_root.as_str());
            let ghost newnode = item_model(node);
            crate::tree::item_table_insert(table, dep_key.as_str(), node);
            proof {
                assert(item_model(*table) == tbl.with_entries(
                    tl_set(tbl.entries(), key, newnode),
                ));
                assert(newnode.wf());
                crate::tree_model::lemma_set_unique(tbl.entries(), key, newnode);
                crate::tree_model::lemma_set_vals_wf(tbl.entries(), key, newnode);
                assert(item_model(*table).wf());
            }
        }
        if !crate::tree::item_is_block_table(table) {
            crate::tree::item_table_fmt(table);
        }
        proof {
            lemma_wdescend_set_wf(doc0, gpath, item_model(*table));
        }
        Ok(())
    }
}



/// Whether the document declares a package identity.
pub open spec fn has_identity(t: Toml) -> bool {
    tl_has(t.entries(), "package"@) || tl_has(t.entries(), "project"@)
}

/// Components joined by `.`, for naming a table path in an error.
pub open spec fn join_dot(cs: Seq<Seq<char>>) -> Seq<char>
    decreases cs.len(),
{
    if cs.len() == 0 {
        Seq::empty()
    } else if cs.len() == 1 {
        cs[0]
    } else {
        cs[0] + seq!['.'] + join_dot(cs.drop_first())
    }
}

/// Components joined by `.`.
pub fn join_dot_exec(comps: &Vec<String>) -> (r: String)
    ensures
        r@ == join_dot(strs(comps@)),
{
    let ghost cs = strs(comps@);
    let mut out = String::new();
    if comps.len() == 0 {
        proof {
            assert(out@ =~= join_dot(cs));
        }
        return out;
    }
    out.append(comps[0].as_str());
    let mut k: usize = 1;
    while k < comps.len()
        invariant
            strs(comps@) == cs,
            1 <= k <= cs.len(),
            out@ == join_dot(cs.take(k as int)),
        decreases comps.len() - k,
    {
        out.append(".");
        out.append(comps[k].as_str());
        proof {
            reveal_strlit(".");
            lemma_join_dot_take(cs, k as int);
            assert(out@ == join_dot(cs.take(k as int)) + seq!['.'] + cs[k as int]);
        }
        k = k + 1;
    }
    proof {
        assert(cs.take(cs.len() as int) =~= cs);
    }
    out
}

/// Extending a joined path by one component appends a dot and the
/// component.
proof fn lemma_join_dot_take(cs: Seq<Seq<char>>, k: int)
    requires
        1 <= k < cs.len(),
    ensures
        join_dot(cs.take(k + 1)) =~= join_dot(cs.take(k)) + seq!['.'] + cs[k],
    decreases k,
{
    if k == 1 {
        let two = cs.take(2);
        assert(two.drop_first() =~= seq![cs[1]]);
        assert(join_dot(seq![cs[1]]) == cs[1]);
        assert(cs.take(1).len() == 1);
        assert(cs.take(1)[0] == cs[0]);
    } else {
        lemma_join_dot_take(cs.drop_first(), k - 1);
        let a = cs.take(k + 1);
        let b = cs.take(k);
        assert(a.drop_first() =~= cs.drop_first().take(k));
        assert(b.drop_first() =~= cs.drop_first().take(k - 1));
        assert(cs.drop_first()[k - 1] == cs[k]);
        assert(join_dot(a) == a[0] + seq!['.'] + join_dot(cs.drop_first().take(k)));
        assert(join_dot(b) == b[0] + seq!['.'] + join_dot(cs.drop_first().take(k - 1)));
        assert(join_dot(a) =~= join_dot(b) + seq!['.'] + cs[k]);
    }
}

/// Whether the dependency table entry counts as optional: a table-like
/// node whose `optional` key holds `true`.
pub open spec fn entry_optional(dep: Toml) -> bool {
    dep.is_table_like() && read_flag(dep.entries(), "optional"@) == Some(true)
}

#[derive(Debug, Clone, Copy, PartialEq, Eq, Structural)]
pub enum DependencyStatus {
    /// In no section at all.
    Absent,
    /// Optional in some section.
    Optional,
    /// Present, and non-optional everywhere it appears.
    Required,
}

/// The status of a dependency across the block-table sections from index
/// `i` on: one optional finding wins outright; otherwise any finding makes
/// it required.
pub open spec fn dep_status_from(
    secs: Seq<(Seq<Seq<char>>, Toml)>,
    i: int,
    key: Seq<char>,
    acc: DependencyStatus,
) -> DependencyStatus
    decreases secs.len() - i,
{
    if i < 0 || i >= secs.len() {
        acc
    } else {
        let sec = secs[i].1;
        if sec is Block && tl_has(sec.entries(), key) {
            if entry_optional(tl_lookup(sec.entries(), key)->Some_0) {
                DependencyStatus::Optional
            } else {
                dep_status_from(secs, i + 1, key, DependencyStatus::Required)
            }
        } else {
            dep_status_from(secs, i + 1, key, acc)
        }
    }
}

pub open spec fn dep_status_spec(doc: Toml, key: Seq<char>) -> DependencyStatus {
    dep_status_from(sections_of(doc), 0, key, DependencyStatus::Absent)
}

/// Whether some string of the array is an explicit `dep:` activation of
/// `key`.
pub open spec fn explicit_in_arr(vs: Seq<Toml>, key: Seq<char>) -> bool {
    exists|j: int|
        0 <= j < vs.len() && (#[trigger] vs[j]) is Str && (crate::feature_value::fv_parse(
            vs[j]->Str_0,
        ) matches crate::feature_value::FeatValView::Dep { dep_name } && dep_name == key)
}

/// Whether any feature's array holds an explicit `dep:` activation of
/// `key`.
pub open spec fn is_explicit_spec(doc: Toml, key: Seq<char>) -> bool {
    match tl_lookup(doc.entries(), "features"@) {
        Some(Toml::Block(fes)) => exists|i: int|
            0 <= i < fes.len() && (#[trigger] fes[i]).1 is Arr && explicit_in_arr(
                fes[i].1->Arr_0,
                key,
            ),
        _ => false,
    }
}

/// Whether one entry of a feature list is pruned when `key` was removed:
/// nothing survives of a fully removed dependency (its bare implicit
/// activation only if no explicit `dep:` activation exists anywhere);
/// nothing is pruned while it is optional somewhere; and for a required
/// dependency the bare and `dep:` activations go while `name/feature`
/// references stay.
pub open spec fn fv_pruned(v: Toml, key: Seq<char>, status: DependencyStatus, explicit: bool) -> bool {
    v is Str && {
        let fv = crate::feature_value::fv_parse(v->Str_0);
        match status {
            DependencyStatus::Absent => (fv matches crate::feature_value::FeatValView::Feature(n)
                && !explicit && n == key) || (fv
                matches crate::feature_value::FeatValView::Dep { dep_name } && dep_name == key) || (
            fv matches crate::feature_value::FeatValView::DepFeature { dep_name, .. } && dep_name
                == key),
            DependencyStatus::Optional => false,
            DependencyStatus::Required => (fv
                matches crate::feature_value::FeatValView::Feature(n) && !explicit && n == key)
                || (fv matches crate::feature_value::FeatValView::Dep { dep_name } && dep_name
                == key),
        }
    }
}

/// A feature list with every pruned entry removed, order kept.
pub open spec fn gc_array(vs: Seq<Toml>, key: Seq<char>, status: DependencyStatus, explicit: bool) -> Seq<Toml>
    decreases vs.len(),
{
    if vs.len() == 0 {
        vs
    } else if fv_pruned(vs[0], key, status, explicit) {
        gc_array(vs.drop_first(), key, status, explicit)
    } else {
        seq![vs[0]] + gc_array(vs.drop_first(), key, status, explicit)
    }
}

/// A feature value after pruning: arrays are filtered, everything else
/// stays.
pub open spec fn gc_val(v: Toml, key: Seq<char>, status: DependencyStatus, explicit: bool) -> Toml {
    if v is Arr {
        Toml::Arr(gc_array(v->Arr_0, key, status, explicit))
    } else {
        v
    }
}

/// The `[features]` entries after pruning every list.
pub open spec fn gc_feature_entries(
    fes: Seq<(Seq<char>, Toml)>,
    key: Seq<char>,
    status: DependencyStatus,
    explicit: bool,
) -> Seq<(Seq<char>, Toml)> {
    Seq::new(fes.len(), |i: int| (fes[i].0, gc_val(fes[i].1, key, status, explicit)))
}

/// The whole document after the references to a removed dependency were
/// collected: only a block `[features]` table is touched.
pub open spec fn gc_spec(doc: Toml, key: Seq<char>) -> Toml {
    let status = dep_status_spec(doc, key);
    let explicit = is_explicit_spec(doc, key);
    match tl_lookup(doc.entries(), "features"@) {
        Some(Toml::Block(fes)) => doc.with_entries(
            tl_set(
                doc.entries(),
                "features"@,
                Toml::Block(gc_feature_entries(fes, key, status, explicit)),
            ),
        ),
        _ => doc,
    }
}

/// What a removal leaves: the entry goes from the named top-level table,
/// and the table itself goes when that left it empty.
pub open spec fn remove_dep_spec(doc: Toml, table: Seq<char>, name: Seq<char>) -> Result<
    Toml,
    ErrView,
> {
    match tl_lookup(doc.entries(), table) {
        Some(t) => if t.is_table_like() {
            if !tl_has(t.entries(), name) {
                Err(ErrView::DependencyNotFound { key: name, table })
            } else {
                let es = tl_remove(t.entries(), name);
                if es.len() == 0 {
                    Ok(doc.with_entries(tl_remove(doc.entries(), table)))
                } else {
                    Ok(doc.with_entries(tl_set(doc.entries(), table, t.with_entries(es))))
                }
            }
        } else {
            Err(ErrView::NonExistentTable { table })
        },
        None => Err(ErrView::NonExistentTable { table }),
    }
}

/// View of a dependency-lookup result list.
pub open spec fn depver_views(v: Seq<(Vec<String>, Result<crate::dependency::Dependency, Error>)>) -> Seq<
    (Seq<Seq<char>>, Result<crate::dependency::DepView, ErrView>),
> {
    v.map_values(
        |e: (Vec<String>, Result<crate::dependency::Dependency, Error>)|
            (
                strs(e.0@),
                match e.1 {
                    Ok(d) => Ok(d@),
                    Err(x) => Err(x@),
                },
            ),
    )
}

/// The lookups of a dependency key across the sections from index `i` on:
/// for each section that binds the key, the entry read as a dependency,
/// with an unreadable entry reported under its table path.
pub open spec fn dep_versions_from(
    secs: Seq<(Seq<Seq<char>>, Toml)>,
    i: int,
    root: Seq<char>,
    key: Seq<char>,
) -> Seq<(Seq<Seq<char>>, Result<crate::dependency::DepView, ErrView>)>
    decreases secs.len() - i,
{
    if i < 0 || i >= secs.len() {
        Seq::empty()
    } else {
        (match tl_lookup(secs[i].1.entries(), key) {
            Some(v) => seq![
                (
                    secs[i].0,
                    match crate::dep_toml::dep_from_toml_spec(root, key, v) {
                        Ok(dv) => Ok(dv),
                        Err(_) => Err(
                            ErrView::InvalidDependency { table: join_dot(secs[i].0), key },
                        ),
                    },
                ),
            ],
            None => Seq::empty(),
        }) + dep_versions_from(secs, i + 1, root, key)
    }
}

pub open spec fn dep_versions_spec(doc: Toml, root: Seq<char>, key: Seq<char>) -> Seq<
    (Seq<Seq<char>>, Result<crate::dependency::DepView, ErrView>),
> {
    dep_versions_from(sections_of(doc), 0, root, key)
}

/// Prunes from one feature list every entry that referred to the removed
/// dependency, as far as its current status allows.
pub fn remove_feature_activation(
    arr: &mut Item,
    dep_key: &str,
    status: DependencyStatus,
    explicit_dep_activation: bool,
)
    requires
        item_model(*old(arr)) is Arr,
    ensures
        item_model(*final(arr)) == Toml::Arr(
            gc_array(item_model(*old(arr))->Arr_0, dep_key@, status, explicit_dep_activation),
        ),
{
    let ghost vs = item_model(*arr)->Arr_0;
    let mut k = crate::tree::item_array_len(arr);
    proof {
        assert(vs.take(k as int) =~= vs);
        assert(vs.skip(k as int).len() == 0);
        assert(vs.take(k as int) + gc_array(vs.skip(k as int), dep_key@, status,
            explicit_dep_activation) =~= vs);
    }
    while k > 0
        invariant
            0 <= k <= vs.len(),
            item_model(*arr) == Toml::Arr(
                vs.take(k as int) + gc_array(
                    vs.skip(k as int),
                    dep_key@,
                    status,
                    explicit_dep_activation,
                ),
            ),
        decreases k,
    {
        let ghost cur = item_model(*arr)->Arr_0;
        proof {
            assert(cur[k - 1] == vs[k - 1]);
            assert(vs.skip(k as int - 1)[0] == vs[k - 1]);
            assert(vs.skip(k as int - 1).drop_first() =~= vs.skip(k as int));
        }
        let pruned: bool = match crate::tree::item_array_str(arr, k - 1) {
            Some(sv) => {
                let fv = crate::feature_value::FeatureValue::parse(sv.as_str());
                match status {
                    DependencyStatus::Absent => match &fv {
                        crate::feature_value::FeatureValue::Feature(n) => !explicit_dep_activation
                            && str_eq(n.as_str(), dep_key),
                        crate::feature_value::FeatureValue::Dep { dep_name } => str_eq(
                            dep_name.as_str(),
                            dep_key,
                        ),
                        crate::feature_value::FeatureValue::DepFeature { dep_name, .. } => str_eq(
                            dep_name.as_str(),
                            dep_key,
                        ),
                    },
                    DependencyStatus::Optional => false,
                    DependencyStatus::Required => match &fv {
                        crate::feature_value::FeatureValue::Feature(n) => !explicit_dep_activation
                            && str_eq(n.as_str(), dep_key),
                        crate::feature_value::FeatureValue::Dep { dep_name } => str_eq(
                            dep_name.as_str(),
                            dep_key,
                        ),
                        crate::feature_value::FeatureValue::DepFeature { .. } => false,
                    },
                }
            },
            None => false,
        };
        proof {
            assert(pruned == fv_pruned(vs[k - 1], dep_key@, status, explicit_dep_activation));
        }
        if pruned {
            crate::tree::item_array_remove(arr, k - 1);
            proof {
                assert(item_model(*arr)->Arr_0 =~= vs.take(k as int - 1) + gc_array(
                    vs.skip(k as int - 1),
                    dep_key@,
                    status,
                    explicit_dep_activation,
                ));
            }
        } else {
            proof {
                assert(vs.take(k as int) =~= vs.take(k as int - 1).push(vs[k - 1]));
                assert(item_model(*arr)->Arr_0 =~= vs.take(k as int - 1) + gc_array(
                    vs.skip(k as int - 1),
                    dep_key@,
                    status,
                    explicit_dep_activation,
                ));
            }
        }
        k = k - 1;
    }
    proof {
        assert(vs.take(0).len() == 0);
        assert(item_model(*arr)->Arr_0 =~= gc_array(vs, dep_key@, status, explicit_dep_activation));
    }
}

impl LocalManifest {
    /// Serializes the manifest for writing back, refusing a document that
    /// lacks a package identity: a workspace-only manifest and a plainly
    /// malformed one are told apart.
    pub fn render(&self) -> (r: Result<String, Error>)
        ensures
            r is Ok <==> has_identity(self.manifest@),
            r matches Ok(t) ==> t@ == crate::tree::text_of(self.manifest.data),
            r matches Err(e) ==> e@ == (if tl_has(self.manifest@.entries(), "workspace"@) {
                ErrView::VirtualManifest { path: self.path@ }
            } else {
                ErrView::MissingIdentity { path: self.path@ }
            }),
    {
        let root = doc_item(&self.manifest.data);
        let has_package = item_table_get(root, "package").is_some();
        let has_project = item_table_get(root, "project").is_some();
        if !has_package && !has_project {
            if item_table_get(root, "workspace").is_some() {
                return Err(Error::VirtualManifest { path: self.path.clone() });
            } else {
                return Err(Error::MissingIdentity { path: self.path.clone() });
            }
        }
        Ok(crate::tree::doc_to_text(&self.manifest.data))
    }

    /// Every entry stored under `dep_key` across the manifest's sections,
    /// read as a dependency.
    #[verifier::loop_isolation(false)]
    pub fn get_dependency_versions(&self, dep_key: &str) -> (r: Vec<
        (Vec<String>, Result<crate::dependency::Dependency, Error>),
    >)
        requires
            self.wf(),
        ensures
            depver_views(r@) == dep_versions_spec(
                self.manifest@,
                parent_dir_spec(self.path@),
                dep_key@,
            ),
    {
        let crate_root = parent_dir(self.path.as_str());
        let mut sections = self.manifest.get_sections();
        let ghost gsecs = sections_of(self.manifest@);
        let mut out: Vec<(Vec<String>, Result<crate::dependency::Dependency, Error>)> =
            Vec::new();
        let mut i: usize = 0;
        proof {
            assert(sections@.len() == gsecs.len()) by {
                assert(sec_views(sections@).len() == gsecs.len());
            }
            assert(depver_views(out@) =~= Seq::<
                (Seq<Seq<char>>, Result<crate::dependency::DepView, ErrView>),
            >::empty());
        }
        while i < sections.len()
            invariant
                0 <= i <= gsecs.len(),
                sections@.len() == gsecs.len(),
                sec_views(sections@) == gsecs,
                depver_views(out@) + dep_versions_from(
                    gsecs,
                    i as int,
                    parent_dir_spec(self.path@),
                    dep_key@,
                ) == dep_versions_spec(self.manifest@, parent_dir_spec(self.path@), dep_key@),
            decreases sections.len() - i,
        {
            proof {
                assert(sec_views(sections@)[i as int] == gsecs[i as int]);
            }
            let sec_item = &sections[i].1;
            match item_table_get(sec_item, dep_key) {
                Some(v) => {
                    let res = crate::dependency::Dependency::from_toml(
                        crate_root.as_str(),
                        dep_key,
                        v,
                    );
                    let mapped: Result<crate::dependency::Dependency, Error> = match res {
                        Ok(d) => Ok(d),
                        Err(_) => Err(
                            Error::InvalidDependency {
                                table: join_dot_exec(&sections[i].0),
                                key: dep_key.to_owned(),
                            },
                        ),
                    };
                    let ghost before = out@;
                    let path_copy = clone_string_vec(&sections[i].0);
                    out.push((path_copy, mapped));
                    proof {
                        assert(out@.drop_last() =~= before);
                        assert(depver_views(out@) =~= depver_views(before).push(
                            depver_views(out@)[out@.len() - 1],
                        ));
                    }
                },
                None => {},
            }
            i = i + 1;
        }
        proof {
            assert(dep_versions_from(
                gsecs,
                gsecs.len() as int,
                parent_dir_spec(self.path@),
                dep_key@,
            ).len() == 0);
            assert(depver_views(out@) + Seq::<
                (Seq<Seq<char>>, Result<crate::dependency::DepView, ErrView>),
            >::empty() =~= depver_views(out@));
        }
        out
    }

    /// Removes the entry under `name` from the top-level table `table`;
    /// when that leaves the table empty, the table goes too.
    pub fn remove_from_table(&mut self, table: &str, name: &str) -> (r: Result<(), Error>)
        requires
            old(self).wf(),
        ensures
            final(self).path == old(self).path,
            final(self).wf(),
            (match r {
                Ok(_) => remove_dep_spec(old(self).manifest@, table@, name@) == Ok::<
                    Toml,
                    ErrView,
                >(final(self).manifest@),
                Err(e) => remove_dep_spec(old(self).manifest@, table@, name@) == Err::<
                    Toml,
                    ErrView,
                >(e@) && final(self).manifest@ == old(self).manifest@,
            }),
    {
        let ghost doc0 = self.manifest@;
        {
            let root = doc_item(&self.manifest.data);
            match item_table_get(root, table) {
                None => {
                    return Err(non_existent_table_err(table));
                },
                Some(t) => {
                    if !item_is_table_like(t) {
                        return Err(non_existent_table_err(table));
                    }
                    if item_table_get(t, name).is_none() {
                        return Err(
                            Error::DependencyNotFound {
                                key: name.to_owned(),
                                table: table.to_owned(),
                            },
                        );
                    }
                },
            }
        }
        proof {
            crate::tree_model::lemma_lookup_wf(doc0.entries(), table@);
        }
        let root = crate::tree::doc_item_mut(&mut self.manifest.data);
        let t = crate::tree::item_or_insert_table(root, table);
        let ghost tbl = tl_lookup(doc0.entries(), table@)->Some_0;
        crate::tree::item_table_remove(t, name);
        let now_empty = crate::tree::item_table_len(t) == 0;
        if now_empty {
            crate::tree::item_table_remove(root, table);
            proof {
                crate::tree_model::lemma_remove_set(
                    doc0.entries(),
                    table@,
                    tbl.with_entries(tl_remove(tbl.entries(), name@)),
                );
                assert(self.manifest@ == doc0.with_entries(tl_remove(doc0.entries(), table@)));
                crate::tree_model::lemma_remove_unique(doc0.entries(), table@);
                crate::tree_model::lemma_remove_vals_wf(doc0.entries(), table@);
            }
        } else {
            proof {
                let newtbl = tbl.with_entries(tl_remove(tbl.entries(), name@));
                assert(self.manifest@ == doc0.with_entries(
                    tl_set(doc0.entries(), table@, newtbl),
                ));
                assert(newtbl.wf()) by {
                    crate::tree_model::lemma_remove_unique(tbl.entries(), name@);
                    crate::tree_model::lemma_remove_vals_wf(tbl.entries(), name@);
                }
                crate::tree_model::lemma_set_unique(doc0.entries(), table@, newtbl);
                crate::tree_model::lemma_set_vals_wf(doc0.entries(), table@, newtbl);
            }
        }
        Ok(())
    }
}

/// A deep copy of a vector of strings.
fn clone_string_vec(v: &Vec<String>) -> (r: Vec<String>)
    ensures
        strs(r@) == strs(v@),
{
    let mut out: Vec<String> = Vec::new();
    let mut i: usize = 0;
    proof {
        assert(strs(out@) =~= strs(v@).take(0));
    }
    while i < v.len()
        invariant
            0 <= i <= v@.len(),
            strs(out@) == strs(v@).take(i as int),
        decreases v.len() - i,
    {
        let ghost before = out@;
        out.push(v[i].clone());
        proof {
            assert(out@.drop_last() =~= before);
            assert(strs(out@) =~= strs(before).push(strs(v@)[i as int]));
            assert(strs(v@).take(i as int + 1) =~= strs(v@).take(i as int).push(
                strs(v@)[i as int],
            ));
        }
        i = i + 1;
    }
    proof {
        assert(strs(v@).take(v@.len() as int) =~= strs(v@));
    }
    out
}


/// The prefix-processed `[features]` entries: lists before `i` pruned, the
/// rest untouched.
pub open spec fn gc_prefix(
    fes: Seq<(Seq<char>, Toml)>,
    i: int,
    key: Seq<char>,
    status: DependencyStatus,
    explicit: bool,
) -> Seq<(Seq<char>, Toml)> {
    Seq::new(
        fes.len(),
        |j: int|
            if j < i {
                (fes[j].0, gc_val(fes[j].1, key, status, explicit))
            } else {
                fes[j]
            },
    )
}

/// Pruning keeps a feature list well formed.
proof fn lemma_gc_array_wf(vs: Seq<Toml>, key: Seq<char>, status: DependencyStatus, explicit: bool)
    requires
        forall|i: int| 0 <= i < vs.len() ==> (#[trigger] vs[i]).wf(),
    ensures
        forall|i: int|
            0 <= i < gc_array(vs, key, status, explicit).len() ==> (#[trigger] gc_array(
                vs,
                key,
                status,
                explicit,
            )[i]).wf(),
    decreases vs.len(),
{
    if vs.len() > 0 {
        assert(forall|i: int|
            0 <= i < vs.drop_first().len() ==> (#[trigger] vs.drop_first()[i]).wf());
        lemma_gc_array_wf(vs.drop_first(), key, status, explicit);
        let out = gc_array(vs, key, status, explicit);
        let inner = gc_array(vs.drop_first(), key, status, explicit);
        assert forall|i: int| 0 <= i < out.len() implies (#[trigger] out[i]).wf() by {
            if !fv_pruned(vs[0], key, status, explicit) {
                assert(out == seq![vs[0]] + inner);
                if i > 0 {
                    assert(out[i] == inner[i - 1]);
                }
            }
        }
    }
}

impl LocalManifest {
    /// The status of a dependency across every block-table section: one
    /// optional finding wins outright, any other finding makes it required,
    /// and a dependency in no section is absent.
    #[verifier::loop_isolation(false)]
    pub fn dep_status(&self, dep_key: &str) -> (r: DependencyStatus)
        requires
            self.wf(),
        ensures
            r == dep_status_spec(self.manifest@, dep_key@),
    {
        let sections = self.manifest.get_sections();
        let ghost gsecs = sections_of(self.manifest@);
        let mut status = DependencyStatus::Absent;
        let mut i: usize = 0;
        proof {
            assert(sections@.len() == gsecs.len()) by {
                assert(sec_views(sections@).len() == gsecs.len());
            }
        }
        while i < sections.len()
            invariant
                0 <= i <= gsecs.len(),
                dep_status_from(gsecs, i as int, dep_key@, status) == dep_status_spec(
                    self.manifest@,
                    dep_key@,
                ),
            decreases sections.len() - i,
        {
            proof {
                assert(sec_views(sections@)[i as int] == gsecs[i as int]);
            }
            let sec_item = &sections[i].1;
            if item_is_block_table(sec_item) {
                match item_table_get(sec_item, dep_key) {
                    Some(dep) => {
                        let optional: Option<bool> = if item_is_table_like(dep) {
                            match item_table_get(dep, "optional") {
                                Some(o) => item_as_bool(o),
                                None => None,
                            }
                        } else {
                            None
                        };
                        if optional == Some(true) {
                            return DependencyStatus::Optional;
                        } else {
                            status = DependencyStatus::Required;
                        }
                    },
                    None => {},
                }
            }
            i = i + 1;
        }
        status
    }

    /// Whether any feature's list holds an explicit `dep:` activation of
    /// the dependency.
    #[verifier::loop_isolation(false)]
    pub fn is_explicit_dep_activation(&self, dep_key: &str) -> (r: bool)
        requires
            self.wf(),
        ensures
            r == is_explicit_spec(self.manifest@, dep_key@),
    {
        let root = doc_item(&self.manifest.data);
        match item_table_get(root, "features") {
            None => false,
            Some(f) => {
                if !item_is_block_table(f) {
                    return false;
                }
                let ghost fes = item_model(*f).entries();
                proof {
                    crate::tree_model::lemma_lookup_wf(self.manifest@.entries(), "features"@);
                }
                let keys = item_table_keys(f);
                proof {
                    assert(keys@.len() == fes.len()) by {
                        assert(strs(keys@).len() == tl_keys(fes).len());
                    }
                }
                let mut i: usize = 0;
                while i < keys.len()
                    invariant
                        0 <= i <= fes.len(),
                        forall|w: int|
                            0 <= w < i ==> !((#[trigger] fes[w]).1 is Arr && explicit_in_arr(
                                fes[w].1->Arr_0,
                                dep_key@,
                            )),
                    decreases keys.len() - i,
                {
                    proof {
                        assert(strs(keys@)[i as int] == tl_keys(fes)[i as int]);
                        assert(keys@[i as int]@ == fes[i as int].0);
                        crate::tree_model::lemma_lookup_index(fes, i as int);
                    }
                    match item_table_get(f, keys[i].as_str()) {
                        Some(v) => {
                            if item_is_array(v) {
                                let ghost vs = item_model(*v)->Arr_0;
                                let n = item_array_len(v);
                                let mut j: usize = 0;
                                while j < n
                                    invariant
                                        0 <= j <= n,
                                        n == vs.len(),
                                        item_model(*v) == Toml::Arr(vs),
                                        forall|w: int|
                                            0 <= w < j ==> !((#[trigger] vs[w]) is Str && (
                                            crate::feature_value::fv_parse(vs[w]->Str_0)
                                                matches crate::feature_value::FeatValView::Dep {
                                                dep_name,
                                            } && dep_name == dep_key@)),
                                    decreases n - j,
                                {
                                    match item_array_str(v, j) {
                                        Some(sv) => {
                                            let fv = crate::feature_value::FeatureValue::parse(
                                                sv.as_str(),
                                            );
                                            match &fv {
                                                crate::feature_value::FeatureValue::Dep {
                                                    dep_name,
                                                } => {
                                                    if str_eq(dep_name.as_str(), dep_key) {
                                                        proof {
                                                            assert(vs[j as int] is Str
                                                                && explicit_in_arr(vs, dep_key@));
                                                        }
                                                        return true;
                                                    }
                                                },
                                                _ => {},
                                            }
                                        },
                                        None => {},
                                    }
                                    j = j + 1;
                                }
                            }
                        },
                        None => {
                            proof {
                                assert(false);
                            }
                        },
                    }
                    i = i + 1;
                }
                proof {
                    assert(!is_explicit_spec(self.manifest@, dep_key@)) by {
                        if is_explicit_spec(self.manifest@, dep_key@) {
                            let w: int = choose|w: int|
                                0 <= w < fes.len() && (#[trigger] fes[w]).1 is Arr
                                    && explicit_in_arr(fes[w].1->Arr_0, dep_key@);
                        }
                    }
                }
                false
            },
        }
    }

    /// Prunes, after a dependency was removed by key, every reference to it
    /// from the `[features]` lists, as far as its remaining status allows.
    #[verifier::loop_isolation(false)]
    pub fn gc_dep(&mut self, dep_key: &str)
        requires
            old(self).wf(),
        ensures
            final(self).path == old(self).path,
            final(self).wf(),
            final(self).manifest@ == gc_spec(old(self).manifest@, dep_key@),
    {
        let explicit = self.is_explicit_dep_activation(dep_key);
        let status = self.dep_status(dep_key);
        let ghost doc0 = self.manifest@;
        let ghost key = dep_key@;
        let present_block: bool = {
            let root = doc_item(&self.manifest.data);
            match item_table_get(root, "features") {
                Some(f) => item_is_block_table(f),
                None => false,
            }
        };
        if !present_block {
            proof {
                assert(gc_spec(doc0, key) == doc0);
            }
            return;
        }
        let ghost fes = tl_lookup(doc0.entries(), "features"@)->Some_0.entries();
        proof {
            crate::tree_model::lemma_lookup_wf(doc0.entries(), "features"@);
        }
        let keys = {
            let root = doc_item(&self.manifest.data);
            match item_table_get(root, "features") {
                Some(f) => item_table_keys(f),
                None => Vec::new(),
            }
        };
        proof {
            assert(keys@.len() == fes.len()) by {
                assert(strs(keys@).len() == tl_keys(fes).len());
            }
            assert(gc_prefix(fes, 0, key, status, explicit) =~= fes);
            crate::tree_model::lemma_has_iff_key(doc0.entries(), "features"@);
            let w: int = choose|w: int|
                0 <= w < doc0.entries().len() && (#[trigger] doc0.entries()[w]).0 == "features"@;
            crate::tree_model::lemma_lookup_index(doc0.entries(), w);
            crate::tree_model::lemma_set_at_index(doc0.entries(), w, Toml::Block(fes));
            assert(doc0.entries().update(w, (doc0.entries()[w].0, Toml::Block(fes)))
                =~= doc0.entries());
            assert(tl_set(doc0.entries(), "features"@, Toml::Block(fes)) =~= doc0.entries());
            assert(doc0.with_entries(doc0.entries()) == doc0);
        }
        let mut i: usize = 0;
        while i < keys.len()
            invariant
                0 <= i <= fes.len(),
                self.path == old(self).path,
                self.manifest@ == doc0.with_entries(
                    tl_set(
                        doc0.entries(),
                        "features"@,
                        Toml::Block(gc_prefix(fes, i as int, key, status, explicit)),
                    ),
                ),
            decreases keys.len() - i,
        {
            let ghost cur_entries = tl_set(
                doc0.entries(),
                "features"@,
                Toml::Block(gc_prefix(fes, i as int, key, status, explicit)),
            );
            proof {
                crate::tree_model::lemma_lookup_set(
                    doc0.entries(),
                    "features"@,
                    Toml::Block(gc_prefix(fes, i as int, key, status, explicit)),
                    "features"@,
                );
                assert(strs(keys@)[i as int] == tl_keys(fes)[i as int]);
                assert(keys@[i as int]@ == fes[i as int].0);
                assert(gc_prefix(fes, i as int, key, status, explicit)[i as int] == fes[i as int]);
                assert(tl_unique(gc_prefix(fes, i as int, key, status, explicit))) by {
                    assert(forall|a: int, b: int|
                        0 <= a < b < fes.len() ==> (#[trigger] gc_prefix(
                            fes,
                            i as int,
                            key,
                            status,
                            explicit,
                        )[a]).0 != (#[trigger] gc_prefix(fes, i as int, key, status, explicit)[b]).0);
                }
                crate::tree_model::lemma_lookup_index(
                    gc_prefix(fes, i as int, key, status, explicit),
                    i as int,
                );
            }
            let root = crate::tree::doc_item_mut(&mut self.manifest.data);
            let fitem = crate::tree::item_or_insert_table(root, "features");
            let val = crate::tree::item_or_insert_table(fitem, keys[i].as_str());
            if crate::tree::item_is_array(val) {
                remove_feature_activation(val, dep_key, status, explicit);
            }
            proof {
                assert(item_model(*val) == gc_val(fes[i as int].1, key, status, explicit));
            }
            proof {
                let prefix_i = gc_prefix(fes, i as int, key, status, explicit);
                let prefix_i1 = gc_prefix(fes, i as int + 1, key, status, explicit);
                crate::tree_model::lemma_set_at_index(
                    prefix_i,
                    i as int,
                    gc_val(fes[i as int].1, key, status, explicit),
                );
                assert(tl_set(prefix_i, fes[i as int].0, gc_val(fes[i as int].1, key, status, explicit))
                    =~= prefix_i1);
                crate::tree_model::lemma_set_set(
                    doc0.entries(),
                    "features"@,
                    Toml::Block(prefix_i),
                    Toml::Block(prefix_i1),
                );
                assert(self.manifest@ == doc0.with_entries(
                    tl_set(doc0.entries(), "features"@, Toml::Block(prefix_i1)),
                ));
            }
            i = i + 1;
        }
        proof {
            let done = gc_prefix(fes, fes.len() as int, key, status, explicit);
            assert(done =~= gc_feature_entries(fes, key, status, explicit));
            assert(self.manifest@ == gc_spec(doc0, key));
            assert(self.manifest@.wf()) by {
                assert(tl_unique(done)) by {
                    assert(forall|a: int, b: int|
                        0 <= a < b < fes.len() ==> (#[trigger] done[a]).0 != (#[trigger] done[b]).0);
                }
                assert(crate::tree_model::tl_vals_wf(done)) by {
                    assert forall|w: int| 0 <= w < done.len() implies (#[trigger] done[w]).1.wf() by {
                        assert(fes[w].1.wf());
                        if fes[w].1 is Arr {
                            lemma_gc_array_wf(fes[w].1->Arr_0, key, status, explicit);
                        }
                    }
                }
                crate::tree_model::lemma_set_unique(doc0.entries(), "features"@, Toml::Block(done));
                crate::tree_model::lemma_set_vals_wf(doc0.entries(), "features"@, Toml::Block(done));
            }
        }
    }
}

} // verus!
