//! Verified helpers for working with strings at the character level.

use vstd::prelude::*;
use vstd::string::*;

verus! {

/// View of a vector of strings as a sequence of character sequences.
pub open spec fn strs(v: Seq<String>) -> Seq<Seq<char>> {
    v.map_values(|s: String| s@)
}

/// First index at or after `from` where `c` occurs in `s`; `s.len()` when absent.
pub open spec fn find_char_from(s: Seq<char>, c: char, from: int) -> int
    decreases s.len() - from,
{
    if from < 0 || from >= s.len() {
        s.len() as int
    } else if s[from] == c {
        from
    } else {
        find_char_from(s, c, from + 1)
    }
}

pub open spec fn find_char(s: Seq<char>, c: char) -> int {
    find_char_from(s, c, 0)
}

pub proof fn lemma_find_char_from(s: Seq<char>, c: char, from: int)
    requires
        0 <= from <= s.len(),
    ensures
        from <= find_char_from(s, c, from) <= s.len(),
        find_char_from(s, c, from) < s.len() ==> s[find_char_from(s, c, from)] == c,
        forall|j: int| from <= j < find_char_from(s, c, from) ==> s[j] != c,
    decreases s.len() - from,
{
    if from < s.len() && s[from] != c {
        lemma_find_char_from(s, c, from + 1);
    }
}

/// A version requirement is persisted without semver build metadata:
/// everything from the first `+` on is dropped.
pub open spec fn strip_metadata(s: Seq<char>) -> Seq<char> {
    s.subrange(0, find_char(s, '+'))
}

/// Whether `a` and `b` are the same sequence of characters.
pub fn str_eq(a: &str, b: &str) -> (r: bool)
    ensures
        r == (a@ == b@),
{
    let alen = a.unicode_len();
    let blen = b.unicode_len();
    if alen != blen {
        return false;
    }
    let mut i: usize = 0;
    while i < alen
        invariant
            a@.len() == alen,
            b@.len() == alen,
            0 <= i <= alen,
            forall|j: int| 0 <= j < i ==> a@[j] == b@[j],
        decreases alen - i,
    {
        if a.get_char(i) != b.get_char(i) {
            return false;
        }
        i = i + 1;
    }
    proof {
        assert(a@ =~= b@);
    }
    true
}

/// Whether the strings held by `a` and `b` are the same sequence of characters.
pub fn string_eq(a: &String, b: &String) -> (r: bool)
    ensures
        r == (a@ == b@),
{
    str_eq(a.as_str(), b.as_str())
}

/// First index at or after `from` where `c` occurs, or the length when absent.
pub fn find_char_exec(s: &str, c: char, from: usize) -> (r: usize)
    requires
        from <= s@.len(),
    ensures
        r == find_char_from(s@, c, from as int),
        from <= r <= s@.len(),
        r < s@.len() ==> s@[r as int] == c,
        forall|j: int| from <= j < r ==> s@[j] != c,
{
    let len = s.unicode_len();
    let mut i: usize = from;
    while i < len
        invariant
            s@.len() == len,
            from <= i <= len,
            find_char_from(s@, c, from as int) == find_char_from(s@, c, i as int),
            forall|j: int| from <= j < i ==> s@[j] != c,
        decreases len - i,
    {
        if s.get_char(i) == c {
            proof {
                lemma_find_char_from(s@, c, i as int);
            }
            return i;
        }
        i = i + 1;
    }
    proof {
        lemma_find_char_from(s@, c, i as int);
    }
    i
}

/// Drops a semver build-metadata suffix: the result is everything before
/// the first `+`.
pub fn strip_plus(s: &str) -> (r: String)
    ensures
        r@ == strip_metadata(s@),
{
    let idx = find_char_exec(s, '+', 0);
    let piece = s.substring_char(0, idx);
    piece.to_owned()
}

/// Pointwise replacement of every backslash by a forward slash.
pub open spec fn norm_slashes(s: Seq<char>) -> Seq<char> {
    Seq::new(s.len(), |i: int| if s[i] == '\\' { '/' } else { s[i] })
}

proof fn lemma_norm_slashes_concat(a: Seq<char>, b: Seq<char>)
    ensures
        norm_slashes(a + b) =~= norm_slashes(a) + norm_slashes(b),
{
}

proof fn lemma_norm_slashes_clean(a: Seq<char>)
    requires
        forall|j: int| 0 <= j < a.len() ==> a[j] != '\\',
    ensures
        norm_slashes(a) =~= a,
{
}

/// Copy of `s` with every backslash replaced by a forward slash.
pub fn replace_backslashes(s: &str) -> (r: String)
    ensures
        r@ == norm_slashes(s@),
{
    let len = s.unicode_len();
    let mut out = String::new();
    let mut start: usize = 0;
    proof {
        assert(norm_slashes(s@.subrange(0, 0)) =~= Seq::<char>::empty());
    }
    while start < len
        invariant
            s@.len() == len,
            0 <= start <= len,
            out@ == norm_slashes(s@.subrange(0, start as int)),
        decreases len - start,
    {
        let idx = find_char_exec(s, '\\', start);
        let piece = s.substring_char(start, idx);
        out.append(piece);
        proof {
            lemma_norm_slashes_clean(piece@);
            lemma_norm_slashes_concat(s@.subrange(0, start as int), piece@);
            assert(s@.subrange(0, start as int) + s@.subrange(start as int, idx as int)
                =~= s@.subrange(0, idx as int));
        }
        if idx < len {
            out.append("/");
            proof {
                reveal_strlit("/");
                lemma_norm_slashes_concat(s@.subrange(0, idx as int), seq!['\\']);
                assert(norm_slashes(seq!['\\']) =~= seq!['/']);
                assert(s@.subrange(0, idx as int) + seq![s@[idx as int]]
                    =~= s@.subrange(0, idx as int + 1));
                assert(out@ == norm_slashes(s@.subrange(0, idx as int + 1)));
            }
            start = idx + 1;
        } else {
            start = idx;
        }
    }
    proof {
        assert(s@.subrange(0, len as int) =~= s@);
    }
    out
}


/// Last index where `c` occurs in `s`, or `-1` when absent.
pub open spec fn rfind_char(s: Seq<char>, c: char) -> int
    decreases s.len(),
{
    if s.len() == 0 {
        -1
    } else if s.last() == c {
        s.len() - 1
    } else {
        rfind_char(s.drop_last(), c)
    }
}

pub proof fn lemma_rfind_char(s: Seq<char>, c: char)
    ensures
        -1 <= rfind_char(s, c) < s.len(),
        rfind_char(s, c) >= 0 ==> s[rfind_char(s, c)] == c,
        forall|j: int| rfind_char(s, c) < j < s.len() ==> s[j] != c,
    decreases s.len(),
{
    if s.len() > 0 && s.last() != c {
        lemma_rfind_char(s.drop_last(), c);
        assert forall|j: int| rfind_char(s, c) < j < s.len() implies s[j] != c by {
            if j < s.len() - 1 {
                assert(s.drop_last()[j] == s[j]);
            }
        }
    }
}

/// Last index where `c` occurs, or the length when absent.
pub fn rfind_char_exec(s: &str, c: char) -> (r: Option<usize>)
    ensures
        (match r {
            Some(i) => rfind_char(s@, c) == i as int,
            None => rfind_char(s@, c) == -1,
        }),
{
    let len = s.unicode_len();
    let mut i: usize = len;
    proof {
        assert(s@.subrange(0, len as int) =~= s@);
    }
    while i > 0
        invariant
            s@.len() == len,
            0 <= i <= len,
            rfind_char(s@, c) == rfind_char(s@.subrange(0, i as int), c),
        decreases i,
    {
        if s.get_char(i - 1) == c {
            proof {
                assert(s@.subrange(0, i as int).last() == s@[i - 1]);
            }
            return Some(i - 1);
        }
        proof {
            assert(s@.subrange(0, i as int).drop_last() =~= s@.subrange(0, i as int - 1));
            assert(s@.subrange(0, i as int).last() == s@[i - 1]);
        }
        i = i - 1;
    }
    proof {
        assert(s@.subrange(0, 0).len() == 0);
    }
    None
}

} // verus!
