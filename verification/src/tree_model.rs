//! Mathematical model of a format-preserving TOML tree.
//!
//! A node is reduced to what the editing logic can observe: strings,
//! booleans, integers, arrays, tables (block or inline, as an ordered list
//! of key/value pairs), and a marker for every other value kind.
//! Decoration (whitespace, comments) is deliberately absent: the trusted
//! layer in `tree` guarantees that the operations used here never disturb
//! it.

use vstd::prelude::*;

verus! {

#[verifier::ext_equal]
pub enum Toml {
    /// A string value.
    Str(Seq<char>),
    /// A boolean value.
    Bool(bool),
    /// An integer value.
    Int(int),
    /// A floating-point value, remembered only by its kind.
    Float,
    /// A date-time value, remembered only by its kind.
    Datetime,
    /// An array of values.
    Arr(Seq<Toml>),
    /// An inline table (written on one line, as a value).
    Inline(Seq<(Seq<char>, Toml)>),
    /// A block table (written with a `[header]`).
    Block(Seq<(Seq<char>, Toml)>),
    /// An array of block tables.
    TablesArr,
    /// The placeholder for a missing node.
    Missing,
}

impl Toml {
    /// Whether the node is a table of either style.
    pub open spec fn is_table_like(self) -> bool {
        self is Inline || self is Block
    }

    /// The key/value pairs of a table of either style.
    pub open spec fn entries(self) -> Seq<(Seq<char>, Toml)> {
        match self {
            Toml::Inline(es) => es,
            Toml::Block(es) => es,
            _ => Seq::empty(),
        }
    }

    /// A table of the same style as `self` holding `es`.
    pub open spec fn with_entries(self, es: Seq<(Seq<char>, Toml)>) -> Toml {
        if self is Block {
            Toml::Block(es)
        } else {
            Toml::Inline(es)
        }
    }

    /// The display name of the node's kind, as the tree library reports it.
    pub open spec fn kind_name(self) -> Seq<char> {
        match self {
            Toml::Str(_) => "string"@,
            Toml::Bool(_) => "boolean"@,
            Toml::Int(_) => "integer"@,
            Toml::Float => "float"@,
            Toml::Datetime => "datetime"@,
            Toml::Arr(_) => "array"@,
            Toml::Inline(_) => "inline table"@,
            Toml::Block(_) => "table"@,
            Toml::TablesArr => "array of tables"@,
            Toml::Missing => "none"@,
        }
    }

    /// Every table of the tree binds each key at most once, as the
    /// underlying ordered maps guarantee.
    pub open spec fn wf(self) -> bool
        decreases self,
    {
        match self {
            Toml::Arr(vs) => forall|i: int| 0 <= i < vs.len() ==> (#[trigger] vs[i]).wf(),
            Toml::Inline(es) => tl_unique(es) && forall|i: int|
                0 <= i < es.len() ==> (#[trigger] es[i]).1.wf(),
            Toml::Block(es) => tl_unique(es) && forall|i: int|
                0 <= i < es.len() ==> (#[trigger] es[i]).1.wf(),
            _ => true,
        }
    }
}

/// The value of the first entry named `k`, if any.
pub open spec fn tl_lookup(es: Seq<(Seq<char>, Toml)>, k: Seq<char>) -> Option<Toml>
    decreases es.len(),
{
    if es.len() == 0 {
        None
    } else if es[0].0 == k {
        Some(es[0].1)
    } else {
        tl_lookup(es.drop_first(), k)
    }
}

pub open spec fn tl_has(es: Seq<(Seq<char>, Toml)>, k: Seq<char>) -> bool {
    tl_lookup(es, k) is Some
}

/// Entries after binding `k` to `v`: the first entry named `k` is replaced
/// in place; a missing key is appended at the end.
pub open spec fn tl_set(es: Seq<(Seq<char>, Toml)>, k: Seq<char>, v: Toml) -> Seq<
    (Seq<char>, Toml),
>
    decreases es.len(),
{
    if es.len() == 0 {
        seq![(k, v)]
    } else if es[0].0 == k {
        seq![(k, v)] + es.drop_first()
    } else {
        seq![es[0]] + tl_set(es.drop_first(), k, v)
    }
}

/// Entries after removing the first entry named `k`, order kept.
pub open spec fn tl_remove(es: Seq<(Seq<char>, Toml)>, k: Seq<char>) -> Seq<(Seq<char>, Toml)>
    decreases es.len(),
{
    if es.len() == 0 {
        es
    } else if es[0].0 == k {
        es.drop_first()
    } else {
        seq![es[0]] + tl_remove(es.drop_first(), k)
    }
}

/// The keys of the entries, in order.
pub open spec fn tl_keys(es: Seq<(Seq<char>, Toml)>) -> Seq<Seq<char>> {
    es.map_values(|e: (Seq<char>, Toml)| e.0)
}

/// An array node holding the given strings, in order.
pub open spec fn str_arr(ss: Seq<Seq<char>>) -> Toml {
    Toml::Arr(ss.map_values(|s: Seq<char>| Toml::Str(s)))
}

/// An empty table of the same style as `t`.
pub open spec fn empty_like(t: Toml) -> Toml {
    if t is Block {
        Toml::Block(Seq::empty())
    } else {
        Toml::Inline(Seq::empty())
    }
}

/// Each key occurs at most once.
pub open spec fn tl_unique(es: Seq<(Seq<char>, Toml)>) -> bool {
    forall|i: int, j: int|
        0 <= i < j < es.len() ==> (#[trigger] es[i]).0 != (#[trigger] es[j]).0
}

/// Every value bound in the entries is well formed.
pub open spec fn tl_vals_wf(es: Seq<(Seq<char>, Toml)>) -> bool {
    forall|i: int| 0 <= i < es.len() ==> (#[trigger] es[i]).1.wf()
}

pub broadcast proof fn lemma_lookup_set(
    es: Seq<(Seq<char>, Toml)>,
    k: Seq<char>,
    v: Toml,
    k2: Seq<char>,
)
    ensures
        #[trigger] tl_lookup(tl_set(es, k, v), k2) == if k2 == k {
            Some(v)
        } else {
            tl_lookup(es, k2)
        },
    decreases es.len(),
{
    let out = tl_set(es, k, v);
    if es.len() == 0 {
        assert(out == seq![(k, v)]);
        assert(out[0] == (k, v));
        if k2 != k {
            let rest = out.drop_first();
            assert(rest.len() == 0);
            assert(tl_lookup(rest, k2) is None);
            assert(tl_lookup(out, k2) == tl_lookup(rest, k2));
        }
    } else if es[0].0 == k {
        assert(out == seq![(k, v)] + es.drop_first());
        assert(out[0] == (k, v));
        assert(out.drop_first() =~= es.drop_first());
        if k2 != k {
            assert(tl_lookup(out, k2) == tl_lookup(es.drop_first(), k2));
            assert(tl_lookup(es, k2) == tl_lookup(es.drop_first(), k2));
        }
    } else {
        lemma_lookup_set(es.drop_first(), k, v, k2);
        assert(out == seq![es[0]] + tl_set(es.drop_first(), k, v));
        assert(out[0] == es[0]);
        assert(out.drop_first() =~= tl_set(es.drop_first(), k, v));
    }
}

proof fn lemma_unique_drop_first(es: Seq<(Seq<char>, Toml)>)
    requires
        es.len() > 0,
        tl_unique(es),
    ensures
        tl_unique(es.drop_first()),
        forall|j: int|
            0 <= j < es.drop_first().len() ==> (#[trigger] es.drop_first()[j]).0 != es[0].0,
{
}

proof fn lemma_not_contains_not_lookup(es: Seq<(Seq<char>, Toml)>, k: Seq<char>)
    requires
        forall|j: int| 0 <= j < es.len() ==> (#[trigger] es[j]).0 != k,
    ensures
        !tl_has(es, k),
    decreases es.len(),
{
    if es.len() > 0 {
        lemma_not_contains_not_lookup(es.drop_first(), k);
    }
}

/// With unique keys, removal makes the key absent and touches nothing else.
pub broadcast proof fn lemma_lookup_remove(es: Seq<(Seq<char>, Toml)>, k: Seq<char>, k2: Seq<char>)
    requires
        tl_unique(es),
    ensures
        #[trigger] tl_lookup(tl_remove(es, k), k2) == if k2 == k {
            None::<Toml>
        } else {
            tl_lookup(es, k2)
        },
    decreases es.len(),
{
    if es.len() == 0 {
    } else if es[0].0 == k {
        lemma_unique_drop_first(es);
        if k2 == k {
            lemma_not_contains_not_lookup(es.drop_first(), k);
        }
    } else {
        lemma_unique_drop_first(es);
        lemma_lookup_remove(es.drop_first(), k, k2);
        assert((seq![es[0]] + tl_remove(es.drop_first(), k)).drop_first() =~= tl_remove(
            es.drop_first(),
            k,
        ));
    }
}

/// Every entry of `tl_set(es, k, v)` is `(k, v)` or one of `es`.
proof fn lemma_set_entries_from(es: Seq<(Seq<char>, Toml)>, k: Seq<char>, v: Toml)
    ensures
        forall|j: int|
            0 <= j < tl_set(es, k, v).len() ==> (#[trigger] tl_set(es, k, v)[j] == (k, v)
                || es.contains(tl_set(es, k, v)[j])),
    decreases es.len(),
{
    if es.len() == 0 {
    } else if es[0].0 == k {
        assert forall|j: int| 0 <= j < tl_set(es, k, v).len() implies (tl_set(es, k, v)[j] == (
        k,
        v,
        ) || es.contains(tl_set(es, k, v)[j])) by {
            if j > 0 {
                assert(tl_set(es, k, v)[j] == es.drop_first()[j - 1]);
                assert(es[j] == es.drop_first()[j - 1]);
            }
        }
    } else {
        lemma_set_entries_from(es.drop_first(), k, v);
        assert forall|j: int| 0 <= j < tl_set(es, k, v).len() implies (tl_set(es, k, v)[j] == (
        k,
        v,
        ) || es.contains(tl_set(es, k, v)[j])) by {
            if j > 0 {
                let inner = tl_set(es.drop_first(), k, v);
                assert(tl_set(es, k, v)[j] == inner[j - 1]);
                if inner[j - 1] != (k, v) {
                    let w: int = choose|w: int|
                        0 <= w < es.drop_first().len() && es.drop_first()[w] == inner[j - 1];
                    assert(es[w + 1] == inner[j - 1]);
                }
            }
        }
    }
}

/// Every entry of `tl_remove(es, k)` is one of `es`.
proof fn lemma_remove_entries_from(es: Seq<(Seq<char>, Toml)>, k: Seq<char>)
    ensures
        forall|j: int|
            0 <= j < tl_remove(es, k).len() ==> es.contains(#[trigger] tl_remove(es, k)[j]),
    decreases es.len(),
{
    if es.len() == 0 {
    } else if es[0].0 == k {
        assert forall|j: int| 0 <= j < tl_remove(es, k).len() implies es.contains(
            tl_remove(es, k)[j],
        ) by {
            assert(tl_remove(es, k)[j] == es[j + 1]);
        }
    } else {
        lemma_remove_entries_from(es.drop_first(), k);
        assert forall|j: int| 0 <= j < tl_remove(es, k).len() implies es.contains(
            tl_remove(es, k)[j],
        ) by {
            if j > 0 {
                let inner = tl_remove(es.drop_first(), k);
                assert(tl_remove(es, k)[j] == inner[j - 1]);
                let w: int = choose|w: int|
                    0 <= w < es.drop_first().len() && es.drop_first()[w] == inner[j - 1];
                assert(es[w + 1] == inner[j - 1]);
            }
        }
    }
}

pub broadcast proof fn lemma_set_unique(es: Seq<(Seq<char>, Toml)>, k: Seq<char>, v: Toml)
    requires
        tl_unique(es),
    ensures
        tl_unique(#[trigger] tl_set(es, k, v)),
    decreases es.len(),
{
    if es.len() == 0 {
    } else if es[0].0 == k {
        lemma_unique_drop_first(es);
    } else {
        lemma_unique_drop_first(es);
        lemma_set_unique(es.drop_first(), k, v);
        lemma_set_entries_from(es.drop_first(), k, v);
        let out = tl_set(es, k, v);
        let inner = tl_set(es.drop_first(), k, v);
        assert forall|i: int, j: int| 0 <= i < j < out.len() implies (#[trigger] out[i]).0 != (
        #[trigger] out[j]).0 by {
            if i == 0 {
                assert(out[j] == inner[j - 1]);
                if inner[j - 1] != (k, v) {
                    let w: int = choose|w: int|
                        0 <= w < es.drop_first().len() && es.drop_first()[w] == inner[j - 1];
                    assert(es.drop_first()[w].0 != es[0].0);
                }
            } else {
                assert(out[i] == inner[i - 1]);
                assert(out[j] == inner[j - 1]);
            }
        }
    }
}

pub broadcast proof fn lemma_remove_unique(es: Seq<(Seq<char>, Toml)>, k: Seq<char>)
    requires
        tl_unique(es),
    ensures
        tl_unique(#[trigger] tl_remove(es, k)),
    decreases es.len(),
{
    if es.len() == 0 {
    } else if es[0].0 == k {
        lemma_unique_drop_first(es);
    } else {
        lemma_unique_drop_first(es);
        lemma_remove_unique(es.drop_first(), k);
        lemma_remove_entries_from(es.drop_first(), k);
        let out = tl_remove(es, k);
        let inner = tl_remove(es.drop_first(), k);
        assert forall|i: int, j: int| 0 <= i < j < out.len() implies (#[trigger] out[i]).0 != (
        #[trigger] out[j]).0 by {
            if i == 0 {
                assert(out[j] == inner[j - 1]);
                let w: int = choose|w: int|
                    0 <= w < es.drop_first().len() && es.drop_first()[w] == inner[j - 1];
                assert(es.drop_first()[w].0 != es[0].0);
            } else {
                assert(out[i] == inner[i - 1]);
                assert(out[j] == inner[j - 1]);
            }
        }
    }
}

/// A key is bound exactly when some entry carries it.
pub proof fn lemma_has_iff_key(es: Seq<(Seq<char>, Toml)>, k: Seq<char>)
    ensures
        tl_has(es, k) <==> exists|j: int| 0 <= j < es.len() && (#[trigger] es[j]).0 == k,
    decreases es.len(),
{
    if es.len() > 0 {
        lemma_has_iff_key(es.drop_first(), k);
        if es[0].0 != k {
            if tl_has(es, k) {
                let j: int = choose|j: int|
                    0 <= j < es.drop_first().len() && es.drop_first()[j].0 == k;
                assert(es[j + 1].0 == k);
            }
            if exists|j: int| 0 <= j < es.len() && (#[trigger] es[j]).0 == k {
                let j: int = choose|j: int| 0 <= j < es.len() && (#[trigger] es[j]).0 == k;
                assert(es.drop_first()[j - 1].0 == k);
            }
        }
    }
}

pub broadcast proof fn lemma_has_push(es: Seq<(Seq<char>, Toml)>, e: (Seq<char>, Toml), k: Seq<char>)
    ensures
        #[trigger] tl_lookup(es.push(e), k) == if tl_has(es, k) {
            tl_lookup(es, k)
        } else if e.0 == k {
            Some(e.1)
        } else {
            None::<Toml>
        },
    decreases es.len(),
{
    if es.len() == 0 {
        assert(es.push(e)[0] == e);
        assert(es.push(e).drop_first() =~= Seq::<(Seq<char>, Toml)>::empty());
        if e.0 != k {
            assert(tl_lookup(es.push(e).drop_first(), k) is None);
        }
    } else {
        lemma_has_push(es.drop_first(), e, k);
        assert(es.push(e)[0] == es[0]);
        assert(es.push(e).drop_first() =~= es.drop_first().push(e));
    }
}

/// Binding an absent key appends the entry at the end.
pub broadcast proof fn lemma_set_absent(es: Seq<(Seq<char>, Toml)>, k: Seq<char>, v: Toml)
    requires
        !tl_has(es, k),
    ensures
        #[trigger] tl_set(es, k, v) == es.push((k, v)),
    decreases es.len(),
{
    if es.len() == 0 {
        assert(tl_set(es, k, v) =~= es.push((k, v)));
    } else {
        assert(es[0].0 != k);
        lemma_set_absent(es.drop_first(), k, v);
        assert(tl_set(es, k, v) =~= es.push((k, v)));
    }
}

/// With unique keys, looking an entry's own key up finds that entry.
pub proof fn lemma_lookup_index(es: Seq<(Seq<char>, Toml)>, i: int)
    requires
        tl_unique(es),
        0 <= i < es.len(),
    ensures
        tl_lookup(es, es[i].0) == Some(es[i].1),
    decreases es.len(),
{
    if i > 0 {
        lemma_unique_drop_first(es);
        lemma_lookup_index(es.drop_first(), i - 1);
    }
}

/// A value looked up in well-formed entries is well formed.
pub broadcast proof fn lemma_lookup_wf(es: Seq<(Seq<char>, Toml)>, k: Seq<char>)
    requires
        tl_vals_wf(es),
        tl_has(es, k),
    ensures
        (#[trigger] tl_lookup(es, k))->Some_0.wf(),
    decreases es.len(),
{
    if es.len() > 0 && es[0].0 != k {
        lemma_lookup_wf(es.drop_first(), k);
    }
}

pub broadcast proof fn lemma_set_vals_wf(es: Seq<(Seq<char>, Toml)>, k: Seq<char>, v: Toml)
    requires
        tl_vals_wf(es),
        v.wf(),
    ensures
        tl_vals_wf(#[trigger] tl_set(es, k, v)),
{
    lemma_set_entries_from(es, k, v);
    let out = tl_set(es, k, v);
    assert forall|j: int| 0 <= j < out.len() implies (#[trigger] out[j]).1.wf() by {
        if out[j] != (k, v) {
            let w: int = choose|w: int| 0 <= w < es.len() && es[w] == out[j];
        }
    }
}

pub broadcast proof fn lemma_remove_vals_wf(es: Seq<(Seq<char>, Toml)>, k: Seq<char>)
    requires
        tl_vals_wf(es),
    ensures
        tl_vals_wf(#[trigger] tl_remove(es, k)),
{
    lemma_remove_entries_from(es, k);
    let out = tl_remove(es, k);
    assert forall|j: int| 0 <= j < out.len() implies (#[trigger] out[j]).1.wf() by {
        let w: int = choose|w: int| 0 <= w < es.len() && es[w] == out[j];
    }
}


/// Setting an entry's own key replaces that entry in place.
pub proof fn lemma_set_at_index(es: Seq<(Seq<char>, Toml)>, i: int, v: Toml)
    requires
        tl_unique(es),
        0 <= i < es.len(),
    ensures
        tl_set(es, es[i].0, v) =~= es.update(i, (es[i].0, v)),
    decreases es.len(),
{
    if i == 0 {
        assert(tl_set(es, es[0].0, v) =~= es.update(0, (es[0].0, v)));
    } else {
        lemma_unique_drop_first(es);
        lemma_lookup_index(es, i);
        lemma_set_at_index(es.drop_first(), i - 1, v);
        assert(es[0].0 != es[i].0);
        assert(es.drop_first()[i - 1] == es[i]);
        assert(tl_set(es, es[i].0, v) =~= seq![es[0]] + es.drop_first().update(
            i - 1,
            (es[i].0, v),
        ));
        assert(seq![es[0]] + es.drop_first().update(i - 1, (es[i].0, v)) =~= es.update(
            i,
            (es[i].0, v),
        ));
    }
}

/// Setting the same key twice keeps only the second value.
pub proof fn lemma_set_set(es: Seq<(Seq<char>, Toml)>, k: Seq<char>, a: Toml, b: Toml)
    ensures
        tl_set(tl_set(es, k, a), k, b) =~= tl_set(es, k, b),
    decreases es.len(),
{
    if es.len() == 0 {
    } else if es[0].0 == k {
        assert((seq![(k, a)] + es.drop_first())[0] == (k, a));
        assert(tl_set(seq![(k, a)] + es.drop_first(), k, b) =~= seq![(k, b)] + (seq![(k, a)]
            + es.drop_first()).drop_first());
        assert((seq![(k, a)] + es.drop_first()).drop_first() =~= es.drop_first());
    } else {
        lemma_set_set(es.drop_first(), k, a, b);
        let inner = tl_set(es.drop_first(), k, a);
        assert((seq![es[0]] + inner)[0] == es[0]);
        assert((seq![es[0]] + inner).drop_first() =~= inner);
        assert(tl_set(seq![es[0]] + inner, k, b) =~= seq![es[0]] + tl_set(inner, k, b));
        assert(tl_set(es, k, b) =~= seq![es[0]] + tl_set(es.drop_first(), k, b));
    }
}

/// Removing a key just set removes the original entry.
pub proof fn lemma_remove_set(es: Seq<(Seq<char>, Toml)>, k: Seq<char>, v: Toml)
    ensures
        tl_remove(tl_set(es, k, v), k) =~= tl_remove(es, k),
    decreases es.len(),
{
    if es.len() == 0 {
        assert(tl_set(es, k, v) =~= seq![(k, v)]);
        assert(tl_remove(seq![(k, v)], k) =~= seq![(k, v)].drop_first());
    } else if es[0].0 == k {
        assert(tl_set(es, k, v) =~= seq![(k, v)] + es.drop_first());
        assert((seq![(k, v)] + es.drop_first())[0] == (k, v));
        assert(tl_remove(seq![(k, v)] + es.drop_first(), k) =~= (seq![(k, v)]
            + es.drop_first()).drop_first());
        assert((seq![(k, v)] + es.drop_first()).drop_first() =~= es.drop_first());
    } else {
        lemma_remove_set(es.drop_first(), k, v);
        let inner = tl_set(es.drop_first(), k, v);
        assert(tl_set(es, k, v) =~= seq![es[0]] + inner);
        assert((seq![es[0]] + inner)[0] == es[0]);
        assert((seq![es[0]] + inner).drop_first() =~= inner);
        assert(tl_remove(seq![es[0]] + inner, k) =~= seq![es[0]] + tl_remove(inner, k));
        assert(tl_remove(es, k) =~= seq![es[0]] + tl_remove(es.drop_first(), k));
    }
}


/// A lookup in a concatenation reads the left part first.
pub proof fn lemma_lookup_concat(a: Seq<(Seq<char>, Toml)>, b: Seq<(Seq<char>, Toml)>, k: Seq<char>)
    ensures
        tl_lookup(a + b, k) == if tl_has(a, k) {
            tl_lookup(a, k)
        } else {
            tl_lookup(b, k)
        },
    decreases a.len(),
{
    if a.len() == 0 {
        assert(a + b =~= b);
    } else {
        lemma_lookup_concat(a.drop_first(), b, k);
        assert((a + b)[0] == a[0]);
        assert((a + b).drop_first() =~= a.drop_first() + b);
    }
}

} // verus!
