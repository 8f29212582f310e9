//! Verified path arithmetic on plain strings.
//!
//! Paths live in the library as strings with `/` as the separator.  A path
//! is split into components the way a path library reads it: empty segments
//! and bare `.` segments say nothing and are dropped, while `..` is kept as
//! an ordinary component.  From that, the module computes the relative path
//! from a base directory to a target (the form persisted for path
//! dependencies) and joins a base with a relative path (the form read back).

use vstd::prelude::*;
use vstd::string::*;
use crate::strutil::norm_slashes;
use crate::strutil::rfind_char;
use crate::strutil::rfind_char_exec;
use crate::strutil::replace_backslashes;
use crate::strutil::str_eq;
use crate::strutil::strs;

verus! {

/// Whether the path starts at the root.
pub open spec fn is_absolute(p: Seq<char>) -> bool {
    p.len() > 0 && p[0] == '/'
}

/// Whether a raw segment counts as a component: empty segments and bare
/// `.` segments do not.
pub open spec fn keep_comp(c: Seq<char>) -> bool {
    c.len() > 0 && !(c.len() == 1 && c[0] == '.')
}

/// The parent-directory component.
pub open spec fn dotdot() -> Seq<char> {
    seq!['.', '.']
}

/// Splits the characters from `i` on into components, with `cur` the
/// segment read so far.
pub open spec fn comps_aux(s: Seq<char>, i: int, cur: Seq<char>) -> Seq<Seq<char>>
    decreases s.len() - i,
{
    if i < 0 || i >= s.len() {
        if keep_comp(cur) {
            seq![cur]
        } else {
            seq![]
        }
    } else if s[i] == '/' {
        if keep_comp(cur) {
            seq![cur] + comps_aux(s, i + 1, Seq::empty())
        } else {
            comps_aux(s, i + 1, Seq::empty())
        }
    } else {
        comps_aux(s, i + 1, cur.push(s[i]))
    }
}

/// The components of a path.
pub open spec fn components(p: Seq<char>) -> Seq<Seq<char>> {
    comps_aux(p, 0, Seq::empty())
}

/// The relative path from the directory with components `b` to the target
/// with components `a`: the shared prefix is dropped, each remaining base
/// component becomes `..`, and the remaining target components follow.
/// Nothing is defined when the base turns out to contain a `..` of its own.
pub open spec fn diff_comps(a: Seq<Seq<char>>, b: Seq<Seq<char>>) -> Option<Seq<Seq<char>>>
    decreases b.len(),
{
    if b.len() == 0 {
        Some(a)
    } else if a.len() == 0 {
        Some(Seq::new(b.len(), |i: int| dotdot()))
    } else if a[0] == b[0] {
        diff_comps(a.drop_first(), b.drop_first())
    } else if b[0] == dotdot() {
        None
    } else {
        Some(Seq::new(b.len(), |i: int| dotdot()) + a)
    }
}

/// Components joined by `/`, each with backslashes normalized to slashes.
pub open spec fn join_norm(cs: Seq<Seq<char>>) -> Seq<char>
    decreases cs.len(),
{
    if cs.len() == 0 {
        Seq::empty()
    } else {
        norm_slashes(cs[0]) + join_tail(cs.drop_first())
    }
}

pub open spec fn join_tail(cs: Seq<Seq<char>>) -> Seq<char>
    decreases cs.len(),
{
    if cs.len() == 0 {
        Seq::empty()
    } else {
        seq!['/'] + norm_slashes(cs[0]) + join_tail(cs.drop_first())
    }
}

/// The relative form persisted for a path dependency: the relative path
/// from `root` to `abs`, slash-separated.
pub open spec fn path_field_spec(root: Seq<char>, abs: Seq<char>) -> Seq<char> {
    join_norm(diff_comps(components(abs), components(root))->Some_0)
}

/// Joining a base directory and a further path, the way a path library
/// does it: an absolute path replaces the base outright.
pub open spec fn path_join(root: Seq<char>, rel: Seq<char>) -> Seq<char> {
    if is_absolute(rel) {
        rel
    } else if root.len() == 0 {
        rel
    } else if root[root.len() - 1] == '/' {
        root + rel
    } else {
        root + seq!['/'] + rel
    }
}

/// Whether the path starts at the root.
pub fn is_absolute_path(p: &str) -> (r: bool)
    ensures
        r == is_absolute(p@),
{
    p.unicode_len() > 0 && p.get_char(0) == '/'
}

/// Joins a base directory and a further path.
pub fn join_path(root: &str, rel: &str) -> (r: String)
    ensures
        r@ == path_join(root@, rel@),
{
    if is_absolute_path(rel) {
        rel.to_owned()
    } else {
        let rlen = root.unicode_len();
        if rlen == 0 {
            rel.to_owned()
        } else if root.get_char(rlen - 1) == '/' {
            let mut out = root.to_owned();
            out.append(rel);
            out
        } else {
            let mut out = root.to_owned();
            out.append("/");
            out.append(rel);
            proof {
                reveal_strlit("/");
                assert(out@ =~= root@ + seq!['/'] + rel@);
            }
            out
        }
    }
}

/// The components of a path.
pub fn split_components(s: &str) -> (r: Vec<String>)
    ensures
        strs(r@) == components(s@),
{
    let len = s.unicode_len();
    let mut out: Vec<String> = Vec::new();
    let mut start: usize = 0;
    let mut i: usize = 0;
    proof {
        assert(s@.subrange(0, 0) =~= Seq::<char>::empty());
        assert(strs(out@) =~= Seq::<Seq<char>>::empty());
    }
    while i < len
        invariant
            s@.len() == len,
            0 <= start <= i <= len,
            forall|j: int| start <= j < i ==> s@[j] != '/',
            components(s@) == strs(out@) + comps_aux(s@, i as int, s@.subrange(start as int, i as int)),
        decreases len - i,
    {
        let ghost cur = s@.subrange(start as int, i as int);
        if s.get_char(i) == '/' {
            if keep_piece(s, start, i) {
                let piece = s.substring_char(start, i);
                out.push(piece.to_owned());
                proof {
                    assert(strs(out@) =~= strs(out@.drop_last()) + seq![cur]);
                    assert(strs(out@.drop_last()) + (seq![cur] + comps_aux(
                        s@,
                        i as int + 1,
                        Seq::empty(),
                    )) =~= strs(out@) + comps_aux(s@, i as int + 1, Seq::empty()));
                }
            }
            start = i + 1;
            i = i + 1;
            proof {
                assert(s@.subrange(start as int, i as int) =~= Seq::<char>::empty());
            }
        } else {
            i = i + 1;
            proof {
                assert(s@.subrange(start as int, i as int) =~= cur.push(s@[i - 1]));
            }
        }
    }
    if keep_piece(s, start, i) {
        let piece = s.substring_char(start, i);
        out.push(piece.to_owned());
        proof {
            let ghost cur = s@.subrange(start as int, i as int);
            assert(strs(out@) =~= strs(out@.drop_last()) + seq![cur]);
            assert(strs(out@.drop_last()) + seq![cur] =~= strs(out@));
        }
    }
    proof {
        assert(components(s@) =~= strs(out@));
    }
    out
}

/// Whether the segment `s[start..end]` counts as a component.
fn keep_piece(s: &str, start: usize, end: usize) -> (r: bool)
    requires
        start <= end <= s@.len(),
    ensures
        r == keep_comp(s@.subrange(start as int, end as int)),
{
    if end == start {
        false
    } else if end == start + 1 && s.get_char(start) == '.' {
        false
    } else {
        true
    }
}

/// The relative path from the directory `root` to the target `abs`,
/// slash-separated, backslashes normalized.  Defined whenever the base
/// holds no `..` component past the shared prefix.
pub fn path_field(root: &str, abs: &str) -> (r: String)
    requires
        diff_comps(components(abs@), components(root@)) is Some,
    ensures
        r@ == path_field_spec(root@, abs@),
{
    let a = split_components(abs);
    let b = split_components(root);
    let ghost ga = strs(a@);
    let ghost gb = strs(b@);
    let mut i: usize = 0;
    proof {
        assert(ga.skip(0) =~= ga);
        assert(gb.skip(0) =~= gb);
    }
    loop
        invariant
            strs(a@) == ga,
            strs(b@) == gb,
            0 <= i <= a.len(),
            0 <= i <= b.len(),
            diff_comps(ga, gb) == diff_comps(ga.skip(i as int), gb.skip(i as int)),
        ensures
            0 <= i <= a.len(),
            0 <= i <= b.len(),
            diff_comps(ga, gb) == diff_comps(ga.skip(i as int), gb.skip(i as int)),
            i == a.len() || i == b.len() || ga[i as int] != gb[i as int],
        decreases a.len() - i,
    {
        if i < a.len() && i < b.len() {
            let same = str_eq(a[i].as_str(), b[i].as_str());
            if same {
                proof {
                    assert(ga.skip(i as int).drop_first() =~= ga.skip(i as int + 1));
                    assert(gb.skip(i as int).drop_first() =~= gb.skip(i as int + 1));
                    assert(ga.skip(i as int)[0] == ga[i as int]);
                    assert(gb.skip(i as int)[0] == gb[i as int]);
                }
                i = i + 1;
            } else {
                break;
            }
        } else {
            break;
        }
    }
    let ghost ra = ga.skip(i as int);
    let ghost rb = gb.skip(i as int);
    let mut comps: Vec<String> = Vec::new();
    let mut j: usize = i;
    while j < b.len()
        invariant
            strs(b@) == gb,
            i <= j <= b.len(),
            strs(comps@) =~= Seq::new((j - i) as nat, |t: int| dotdot()),
        decreases b.len() - j,
    {
        let ghost before = comps@;
        comps.push(dotdot_string());
        proof {
            assert(comps@.drop_last() =~= before);
            assert(strs(comps@) =~= strs(before).push(dotdot()));
            assert(strs(comps@) =~= Seq::new((j + 1 - i) as nat, |t: int| dotdot()));
        }
        j = j + 1;
    }
    let mut k: usize = i;
    while k < a.len()
        invariant
            strs(a@) == ga,
            strs(b@) == gb,
            i <= k <= a.len(),
            i <= b.len(),
            strs(comps@) =~= Seq::new((gb.len() - i) as nat, |t: int| dotdot()) + ga.skip(i as int).take(
                k - i,
            ),
        decreases a.len() - k,
    {
        let ghost before = comps@;
        comps.push(a[k].clone());
        proof {
            assert(comps@.drop_last() =~= before);
            assert(strs(comps@) =~= strs(before).push(ga[k as int]));
            assert(ga.skip(i as int).take(k + 1 - i) =~= ga.skip(i as int).take(k - i).push(
                ga[k as int],
            ));
            assert(strs(comps@) =~= Seq::new((gb.len() - i) as nat, |t: int| dotdot()) + ga.skip(
                i as int,
            ).take(k + 1 - i));
        }
        k = k + 1;
    }
    proof {
        assert(ga.skip(i as int).take(a@.len() - i) =~= ra);
        lemma_diff_shape(ga, gb, i as int);
        assert(strs(comps@) =~= diff_comps(ga, gb)->Some_0);
    }
    join_comps(&comps)
}

/// The string `".."`.
fn dotdot_string() -> (r: String)
    ensures
        r@ == dotdot(),
{
    proof {
        reveal_strlit("..");
    }
    "..".to_owned()
}

/// When the diff is defined and the shared prefix ends at `i`, it is the
/// remaining base turned into `..` steps followed by the remaining target.
proof fn lemma_diff_shape(a: Seq<Seq<char>>, b: Seq<Seq<char>>, i: int)
    requires
        0 <= i <= a.len(),
        0 <= i <= b.len(),
        diff_comps(a, b) is Some,
        diff_comps(a, b) == diff_comps(a.skip(i), b.skip(i)),
        i == a.len() || i == b.len() || a[i] != b[i],
    ensures
        diff_comps(a, b)->Some_0 =~= Seq::new((b.len() - i) as nat, |t: int| dotdot()) + a.skip(i),
{
    let ra = a.skip(i);
    let rb = b.skip(i);
    if rb.len() == 0 {
        assert(diff_comps(ra, rb) == Some(ra));
        assert(Seq::new(0, |t: int| dotdot()) + ra =~= ra);
    } else if ra.len() == 0 {
        assert(diff_comps(ra, rb) == Some(Seq::new(rb.len(), |t: int| dotdot())));
        assert(Seq::new((b.len() - i) as nat, |t: int| dotdot()) + ra =~= Seq::new(
            rb.len(),
            |t: int| dotdot(),
        ));
    } else {
        assert(ra[0] == a[i] && rb[0] == b[i]);
        assert(ra[0] != rb[0]);
        assert(diff_comps(ra, rb) is Some);
        assert(rb[0] != dotdot());
        assert(diff_comps(ra, rb) == Some(Seq::new(rb.len(), |t: int| dotdot()) + ra));
        assert(Seq::new(rb.len(), |t: int| dotdot()) + ra =~= Seq::new(
            (b.len() - i) as nat,
            |t: int| dotdot(),
        ) + ra);
    }
}

/// Components joined by `/`, each with backslashes normalized.
pub fn join_comps(comps: &Vec<String>) -> (r: String)
    ensures
        r@ == join_norm(strs(comps@)),
{
    let ghost cs = strs(comps@);
    if comps.len() == 0 {
        proof {
            assert(join_norm(cs) =~= Seq::<char>::empty());
        }
        return String::new();
    }
    let mut out = replace_backslashes(comps[0].as_str());
    proof {
        assert(cs.drop_first() =~= cs.skip(1));
    }
    let mut k: usize = 1;
    while k < comps.len()
        invariant
            strs(comps@) == cs,
            1 <= k <= cs.len(),
            join_norm(cs) == out@ + join_tail(cs.skip(k as int)),
        decreases comps.len() - k,
    {
        out.append("/");
        let piece = replace_backslashes(comps[k].as_str());
        out.append(piece.as_str());
        proof {
            reveal_strlit("/");
            assert(cs.skip(k as int)[0] == cs[k as int]);
            assert(cs.skip(k as int).drop_first() =~= cs.skip(k as int + 1));
            assert(join_tail(cs.skip(k as int)) == seq!['/'] + norm_slashes(cs[k as int])
                + join_tail(cs.skip(k as int + 1)));
        }
        k = k + 1;
    }
    proof {
        assert(cs.skip(cs.len() as int).len() == 0);
        assert(join_tail(cs.skip(cs.len() as int)) =~= Seq::<char>::empty());
        assert(out@ =~= join_norm(cs));
    }
    out
}


/// The directory holding the file at `p`: everything before the last
/// separator, the root for a file directly under it, and nothing for a
/// bare file name.
pub open spec fn parent_dir_spec(p: Seq<char>) -> Seq<char> {
    let i = rfind_char(p, '/');
    if i < 0 {
        Seq::empty()
    } else if i == 0 {
        seq!['/']
    } else {
        p.subrange(0, i)
    }
}

/// The parent of an absolute path is absolute.
pub proof fn lemma_parent_abs(p: Seq<char>)
    requires
        is_absolute(p),
    ensures
        is_absolute(parent_dir_spec(p)),
{
    crate::strutil::lemma_rfind_char(p, '/');
}

/// The directory holding the file at `p`.
pub fn parent_dir(p: &str) -> (r: String)
    ensures
        r@ == parent_dir_spec(p@),
{
    match rfind_char_exec(p, '/') {
        None => String::new(),
        Some(i) => {
            if i == 0 {
                let out = "/".to_owned();
                proof {
                    reveal_strlit("/");
                    assert(out@ =~= seq!['/']);
                }
                out
            } else {
                proof {
                    crate::strutil::lemma_rfind_char(p@, '/');
                }
                let piece = p.substring_char(0, i);
                piece.to_owned()
            }
        },
    }
}

} // verus!
