//! Tree-relative paths as text, their order, and sets of them.
//!
//! Paths are written with `/` between their components. They are ordered
//! component by component, so that a directory's entries stand together:
//! `a/x` comes before `a-b/x`, because `a` comes before `a-b`.

use crate::text::{chars_of, push_chars, push_str, string_of};
use vstd::prelude::*;

verus! {

/// The place of a character in the order of paths: the separator comes
/// before every other character, the others stand in the order of their
/// codes.
pub open spec fn rank(c: char) -> int {
    if c == '/' {
        -1
    } else {
        c as u32 as int
    }
}

/// Whether path `a` comes before path `b`: at the first place where they
/// differ `a` has the lower character, or `a` ends there and `b` does not.
pub open spec fn path_lt(a: Seq<char>, b: Seq<char>) -> bool
    decreases a.len(),
{
    if b.len() == 0 {
        false
    } else if a.len() == 0 {
        true
    } else if a[0] != b[0] {
        rank(a[0]) < rank(b[0])
    } else {
        path_lt(a.drop_first(), b.drop_first())
    }
}

/// No path comes before itself.
pub proof fn lemma_path_lt_irreflexive(a: Seq<char>)
    ensures
        !path_lt(a, a),
    decreases a.len(),
{
    if a.len() > 0 {
        lemma_path_lt_irreflexive(a.drop_first());
    }
}

/// The order of paths is transitive.
pub proof fn lemma_path_lt_transitive(a: Seq<char>, b: Seq<char>, c: Seq<char>)
    requires
        path_lt(a, b),
        path_lt(b, c),
    ensures
        path_lt(a, c),
    decreases a.len(),
{
    if a.len() > 0 && b.len() > 0 && c.len() > 0 && a[0] == b[0] && b[0] == c[0] {
        lemma_path_lt_transitive(a.drop_first(), b.drop_first(), c.drop_first());
    }
}

/// Of two different paths one comes before the other.
pub proof fn lemma_path_lt_total(a: Seq<char>, b: Seq<char>)
    ensures
        path_lt(a, b) || path_lt(b, a) || a == b,
    decreases a.len(),
{
    if a.len() > 0 && b.len() > 0 && a[0] == b[0] {
        lemma_path_lt_total(a.drop_first(), b.drop_first());
        if a.drop_first() == b.drop_first() {
            assert(a =~= seq![a[0]] + a.drop_first());
            assert(b =~= seq![b[0]] + b.drop_first());
        }
    } else if a.len() == 0 && b.len() == 0 {
        assert(a =~= b);
    } else if a.len() > 0 && b.len() > 0 {
        let x: char = a[0];
        let y: char = b[0];
        vstd::utf8::char_u32_cast(x, x as u32);
        vstd::utf8::char_u32_cast(y, y as u32);
    }
}

/// Whether the paths of `s` rise strictly, so that none occurs twice.
pub open spec fn strictly_sorted(s: Seq<Seq<char>>) -> bool {
    forall|i: int, j: int| 0 <= i < j < s.len() ==> path_lt(#[trigger] s[i], #[trigger] s[j])
}

/// The paths held in `v`.
pub open spec fn paths_view(v: Seq<Vec<char>>) -> Seq<Seq<char>> {
    v.map_values(|p: Vec<char>| p@)
}

/// The texts of the strings of `v`.
pub open spec fn strings_view(v: Seq<String>) -> Seq<Seq<char>> {
    v.map_values(|p: String| p@)
}

/// Whether path `a` comes before path `b`.
pub fn path_less(a: &[char], b: &[char]) -> (r: bool)
    ensures
        r == path_lt(a@, b@),
{
    let mut i: usize = 0;
    proof {
        assert(a@.skip(0) == a@);
        assert(b@.skip(0) == b@);
    }
    while i < a.len() && i < b.len() && a[i] == b[i]
        invariant
            i <= a@.len(),
            i <= b@.len(),
            path_lt(a@, b@) == path_lt(a@.skip(i as int), b@.skip(i as int)),
        decreases a@.len() - i,
    {
        proof {
            assert(a@.skip(i as int).drop_first() == a@.skip(i + 1));
            assert(b@.skip(i as int).drop_first() == b@.skip(i + 1));
        }
        i += 1;
    }
    if i >= b.len() {
        false
    } else if i >= a.len() {
        true
    } else if a[i] == '/' {
        true
    } else if b[i] == '/' {
        false
    } else {
        (a[i] as u32) < (b[i] as u32)
    }
}

/// Whether `p` is one of the paths of the sorted set `set`.
pub fn holds_path(set: &Vec<Vec<char>>, p: &[char]) -> (r: bool)
    ensures
        r == paths_view(set@).contains(p@),
{
    let ghost all = paths_view(set@);
    let mut i: usize = 0;
    while i < set.len()
        invariant
            i <= set@.len(),
            all == paths_view(set@),
            forall|j: int| 0 <= j < i ==> all[j] != p@,
        decreases set@.len() - i,
    {
        let q = set[i].as_slice();
        if !path_less(q, p) && !path_less(p, q) {
            proof {
                lemma_path_lt_total(q@, p@);
                assert(all[i as int] == p@);
            }
            return true;
        }
        proof {
            if all[i as int] == p@ {
                lemma_path_lt_irreflexive(p@);
            }
        }
        i += 1;
    }
    false
}

/// Puts `p` into the sorted set `set`, at its place in the order; a path
/// that the set holds already is not put in again.
pub fn insert_path(set: &mut Vec<Vec<char>>, p: Vec<char>)
    requires
        strictly_sorted(paths_view(old(set)@)),
    ensures
        strictly_sorted(paths_view(final(set)@)),
        forall|q: Seq<char>|
            paths_view(final(set)@).contains(q) <==> paths_view(old(set)@).contains(q) || q == p@,
{
    let ghost before = paths_view(set@);
    let mut k: usize = 0;
    while k < set.len() && path_less(set[k].as_slice(), p.as_slice())
        invariant
            k <= set@.len(),
            set@ == old(set)@,
            before == paths_view(set@),
            forall|j: int| 0 <= j < k ==> path_lt(#[trigger] before[j], p@),
        decreases set@.len() - k,
    {
        k += 1;
    }
    if k < set.len() && !path_less(p.as_slice(), set[k].as_slice()) {
        proof {
            lemma_path_lt_total(before[k as int], p@);
            assert forall|q: Seq<char>| before.contains(q) || q == p@ implies before.contains(
                q,
            ) by {
                assert(before[k as int] == p@);
            }
        }
        return ;
    }
    let ghost added = p@;
    set.insert(k, p);
    proof {
        let after = paths_view(set@);
        assert(after =~= before.insert(k as int, added));
        assert forall|i: int, j: int| 0 <= i < j < after.len() implies path_lt(
            #[trigger] after[i],
            #[trigger] after[j],
        ) by {
            if i == k {
                if j > k + 1 {
                    lemma_path_lt_transitive(added, before[k as int], before[j - 1]);
                }
            } else if j == k {
            } else {
                let bi = if i < k { i } else { i - 1 };
                let bj = if j < k { j } else { j - 1 };
                assert(path_lt(before[bi], before[bj]));
            }
        }
        assert forall|q: Seq<char>| after.contains(q) <==> before.contains(q) || q == added by {
            if after.contains(q) {
                let i = choose|i: int| 0 <= i < after.len() && after[i] == q;
                if i < k {
                    assert(before[i] == q);
                } else if i > k {
                    assert(before[i - 1] == q);
                }
            }
            if before.contains(q) {
                let i = choose|i: int| 0 <= i < before.len() && before[i] == q;
                if i < k {
                    assert(after[i] == q);
                } else {
                    assert(after[i + 1] == q);
                }
            }
            if q == added {
                assert(after[k as int] == q);
            }
        }
    }
}

/// The sorted set of the paths in `paths`.
pub fn path_set(paths: &Vec<String>) -> (set: Vec<Vec<char>>)
    ensures
        strictly_sorted(paths_view(set@)),
        forall|q: Seq<char>| paths_view(set@).contains(q) <==> strings_view(paths@).contains(q),
{
    let mut set: Vec<Vec<char>> = Vec::new();
    let ghost all = strings_view(paths@);
    let mut i: usize = 0;
    while i < paths.len()
        invariant
            i <= paths@.len(),
            all == strings_view(paths@),
            strictly_sorted(paths_view(set@)),
            forall|q: Seq<char>| paths_view(set@).contains(q) <==> all.take(i as int).contains(q),
        decreases paths@.len() - i,
    {
        let ghost before = paths_view(set@);
        let p = chars_of(paths[i].as_str());
        insert_path(&mut set, p);
        proof {
            assert forall|q: Seq<char>| paths_view(set@).contains(q) <==> all.take(
                i + 1,
            ).contains(q) by {
                assert(all.take(i + 1) == all.take(i as int).push(all[i as int]));
                if all.take(i as int).contains(q) {
                    let j = choose|j: int| 0 <= j < i && all.take(i as int)[j] == q;
                    assert(all.take(i + 1)[j] == q);
                }
                if q == all[i as int] {
                    assert(all.take(i + 1)[i as int] == q);
                }
            }
        }
        i += 1;
    }
    proof {
        assert(all.take(i as int) == all);
    }
    set
}

/// A place at which `s` holds `p`.
pub proof fn lemma_index_of<A>(s: Seq<A>, p: A) -> (i: int)
    requires
        s.contains(p),
    ensures
        0 <= i < s.len(),
        s[i] == p,
{
    choose|i: int| 0 <= i < s.len() && s[i] == p
}

/// What a sequence holds after one more element was appended.
pub proof fn lemma_push_contains<A>(s: Seq<A>, x: A, p: A)
    ensures
        s.push(x).contains(p) <==> s.contains(p) || p == x,
{
    if s.contains(p) {
        let i = choose|i: int| 0 <= i < s.len() && s[i] == p;
        assert(s.push(x)[i] == p);
    }
    if p == x {
        assert(s.push(x)[s.len() as int] == p);
    }
    if s.push(x).contains(p) {
        let i = choose|i: int| 0 <= i < s.push(x).len() && s.push(x)[i] == p;
        if i < s.len() {
            assert(s[i] == p);
        }
    }
}

/// The paths of the sorted set `set` that `other` holds, where `shared` is
/// set, or does not hold, where it is not; in the order of `set`.
pub fn filter_paths(set: &Vec<Vec<char>>, other: &Vec<Vec<char>>, shared: bool) -> (r: Vec<
    Vec<char>,
>)
    requires
        strictly_sorted(paths_view(set@)),
    ensures
        strictly_sorted(paths_view(r@)),
        forall|p: Seq<char>| #[trigger]
            paths_view(r@).contains(p) <==> paths_view(set@).contains(p) && paths_view(
                other@,
            ).contains(p) == shared,
{
    let ghost all = paths_view(set@);
    let ghost others = paths_view(other@);
    let mut r: Vec<Vec<char>> = Vec::new();
    let mut k: usize = 0;
    while k < set.len()
        invariant
            k <= set@.len(),
            all == paths_view(set@),
            others == paths_view(other@),
            strictly_sorted(all),
            strictly_sorted(paths_view(r@)),
            forall|p: Seq<char>| #[trigger]
                paths_view(r@).contains(p) <==> all.take(k as int).contains(p) && others.contains(
                    p,
                ) == shared,
        decreases set@.len() - k,
    {
        let ghost before = paths_view(r@);
        let ghost x = all[k as int];
        proof {
            assert(all.take(k + 1) == all.take(k as int).push(x));
            assert forall|p: Seq<char>| all.take(k + 1).contains(p) <==> all.take(
                k as int,
            ).contains(p) || p == x by {
                lemma_push_contains(all.take(k as int), x, p);
            }
        }
        if holds_path(other, set[k].as_slice()) == shared {
            r.push(set[k].clone());
            proof {
                let after = paths_view(r@);
                assert(after == before.push(x));
                assert forall|p: Seq<char>| #[trigger]
                    after.contains(p) <==> before.contains(p) || p == x by {
                    lemma_push_contains(before, x, p);
                }
                assert forall|i: int, j: int| 0 <= i < j < after.len() implies path_lt(
                    #[trigger] after[i],
                    #[trigger] after[j],
                ) by {
                    if j == before.len() {
                        assert(before.contains(before[i]));
                        let m = lemma_index_of(all.take(k as int), before[i]);
                        assert(path_lt(all[m], all[k as int]));
                    } else {
                        assert(path_lt(before[i], before[j]));
                    }
                }
            }
        }
        proof {
            let after = paths_view(r@);
            assert forall|p: Seq<char>| #[trigger]
                after.contains(p) <==> all.take(k + 1).contains(p) && others.contains(p)
                    == shared by {
                lemma_push_contains(all.take(k as int), x, p);
                lemma_push_contains(before, x, p);
                assert(before.contains(p) <==> all.take(k as int).contains(p) && others.contains(p)
                    == shared);
            }
        }
        k += 1;
    }
    proof {
        assert(all.take(k as int) == all);
    }
    r
}

/// The path `rel` below the directory `base`: `rel` itself where it starts
/// at the root, else `base`, a separator unless `base` is empty or ends with
/// one, and `rel`.
pub open spec fn joined(base: Seq<char>, rel: Seq<char>) -> Seq<char> {
    if rel.len() > 0 && rel[0] == '/' {
        rel
    } else if base.len() == 0 || base.last() == '/' {
        base + rel
    } else {
        base + "/"@ + rel
    }
}

/// The path `rel` below the directory `base`.
pub fn join(base: &str, rel: &str) -> (r: String)
    ensures
        r@ == joined(base@, rel@),
{
    let b = chars_of(base);
    let r = chars_of(rel);
    let mut out: Vec<char> = Vec::new();
    if r.len() > 0 && r[0] == '/' {
        push_chars(&mut out, r.as_slice());
    } else {
        push_chars(&mut out, b.as_slice());
        if b.len() > 0 && b[b.len() - 1] != '/' {
            push_str(&mut out, "/");
        }
        push_chars(&mut out, r.as_slice());
    }
    string_of(out.as_slice())
}

} // verus!
