//! Splitting a hunk into the smallest hunks that can be accepted or rejected
//! one by one: one for each run of changed lines.

use crate::hunk::{
    copy_lines, hunks_view, lemma_counts_bounded, lines_view, new_count, old_count, Hunk,
    HunkView, Line, LineKind, LineView,
};
use vstd::prelude::*;

verus! {

/// Whether the line changes the text.
pub open spec fn is_change(l: LineView) -> bool {
    l.kind != LineKind::Context
}

/// The index of the last changed line, or `-1` where no line is changed.
pub open spec fn last_change(lines: Seq<LineView>) -> int
    decreases lines.len(),
{
    if lines.len() == 0 {
        -1
    } else if is_change(lines.last()) {
        lines.len() - 1
    } else {
        last_change(lines.drop_last())
    }
}

/// Whether a new hunk begins at line `c`: there the context begins that
/// leads from one run of changed lines to the next.
pub open spec fn is_cut(lines: Seq<LineView>, c: int) -> bool {
    0 < c < last_change(lines) && !is_change(lines[c]) && is_change(lines[c - 1])
}

/// The cuts below line `i`, in rising order.
pub open spec fn cuts_below(lines: Seq<LineView>, i: int) -> Seq<int>
    decreases i,
{
    if i <= 0 {
        Seq::empty()
    } else if is_cut(lines, i - 1) {
        cuts_below(lines, i - 1).push(i - 1)
    } else {
        cuts_below(lines, i - 1)
    }
}

/// All the cuts of `lines`, in rising order.
pub open spec fn cuts(lines: Seq<LineView>) -> Seq<int> {
    cuts_below(lines, lines.len() as int)
}

/// The line at which piece `j` begins, for the cuts `cs`.
pub open spec fn piece_start(cs: Seq<int>, j: int) -> int {
    if j <= 0 {
        0
    } else {
        cs[j - 1]
    }
}

/// The line before which piece `j` ends, for the cuts `cs` of `n` lines.
pub open spec fn piece_end(cs: Seq<int>, j: int, n: int) -> int {
    if j < cs.len() {
        cs[j]
    } else {
        n
    }
}

/// Piece `j` of `h` for the cuts `cs`: the lines between two cuts, starting
/// in each text where the lines before it end.
pub open spec fn piece_with(h: HunkView, cs: Seq<int>, j: int) -> HunkView {
    let a = piece_start(cs, j);
    let b = piece_end(cs, j, h.lines.len() as int);
    HunkView {
        old_start: h.old_start + old_count(h.lines.take(a)),
        new_start: h.new_start + new_count(h.lines.take(a)),
        lines: h.lines.subrange(a, b),
    }
}

/// The hunks that `h` splits into. Each run of changed lines gets a hunk of
/// its own, together with the context before it; the first hunk keeps the
/// leading context and the last one the trailing context. A hunk with at
/// most one run of changed lines splits into itself.
pub open spec fn split_view(h: HunkView) -> Seq<HunkView> {
    Seq::new(cuts(h.lines).len() + 1, |j: int| piece_with(h, cuts(h.lines), j))
}

/// Counting the lines of both parts of `lines`, cut at `a`, counts them all.
pub proof fn lemma_count_parts(lines: Seq<LineView>, a: int)
    requires
        0 <= a <= lines.len(),
    ensures
        old_count(lines) == old_count(lines.take(a)) + old_count(lines.skip(a)),
        new_count(lines) == new_count(lines.take(a)) + new_count(lines.skip(a)),
    decreases lines.len(),
{
    if a == lines.len() {
        assert(lines.take(a) == lines);
        assert(lines.skip(a).len() == 0);
    } else {
        lemma_count_parts(lines.drop_last(), a);
        assert(lines.drop_last().take(a) == lines.take(a));
        assert(lines.drop_last().skip(a) == lines.skip(a).drop_last());
    }
}

/// The cuts below `i` lie between the first line and `i`, and rise.
proof fn lemma_cuts_bounds(lines: Seq<LineView>, i: int)
    requires
        0 <= i <= lines.len(),
    ensures
        cuts_below(lines, i).len() <= i,
        forall|j: int|
            0 <= j < cuts_below(lines, i).len() ==> 0 < #[trigger] cuts_below(lines, i)[j] < i,
        forall|j: int, k: int|
            0 <= j < k < cuts_below(lines, i).len() ==> cuts_below(lines, i)[j] < cuts_below(
                lines,
                i,
            )[k],
    decreases i,
{
    if i > 0 {
        lemma_cuts_bounds(lines, i - 1);
    }
}

/// The lines of the hunks `hunks`, one hunk after the other.
pub open spec fn joined_lines(hunks: Seq<HunkView>) -> Seq<LineView>
    decreases hunks.len(),
{
    if hunks.len() == 0 {
        Seq::empty()
    } else {
        joined_lines(hunks.drop_last()) + hunks.last().lines
    }
}

/// The first `m` pieces, taken together, are the lines up to the end of the
/// last of them.
proof fn lemma_pieces_join(h: HunkView, m: int)
    requires
        0 <= m <= cuts(h.lines).len() + 1,
    ensures
        joined_lines(split_view(h).take(m)) == h.lines.take(
            if m == 0 {
                0
            } else {
                piece_end(cuts(h.lines), m - 1, h.lines.len() as int)
            },
        ),
    decreases m,
{
    let cs = cuts(h.lines);
    let n = h.lines.len() as int;
    lemma_cuts_bounds(h.lines, n);
    if m > 0 {
        lemma_pieces_join(h, m - 1);
        let a = piece_start(cs, m - 1);
        let b = piece_end(cs, m - 1, n);
        assert(split_view(h).take(m).drop_last() == split_view(h).take(m - 1));
        assert(split_view(h).take(m).last() == piece_with(h, cs, m - 1));
        assert(a == if m - 1 == 0 {
            0
        } else {
            piece_end(cs, m - 2, n)
        });
        assert(h.lines.take(a) + h.lines.subrange(a, b) == h.lines.take(b));
    } else {
        assert(split_view(h).take(0).len() == 0);
    }
}

/// The hunks that a hunk splits into are the hunk, cut in pieces: their
/// lines, taken together, are its lines in their order. So whatever the
/// hunk removes from the original text or adds to it, the pieces remove
/// and add together.
pub proof fn lemma_split_joins(h: HunkView)
    ensures
        joined_lines(split_view(h)) == h.lines,
        old_count(joined_lines(split_view(h))) == h.old_len(),
        new_count(joined_lines(split_view(h))) == h.new_len(),
{
    let m = cuts(h.lines).len() + 1;
    lemma_pieces_join(h, m as int);
    assert(split_view(h).take(m as int) == split_view(h));
    assert(h.lines.take(h.lines.len() as int) == h.lines);
}

/// The hunks that a hunk splits into stand one behind the other: the first
/// starts where the hunk starts, and each of the others where the one
/// before it ends, in the original text and in the modified one.
pub proof fn lemma_split_chains(h: HunkView, j: int)
    requires
        0 <= j < split_view(h).len(),
    ensures
        j == 0 ==> split_view(h)[j].old_start == h.old_start && split_view(h)[j].new_start
            == h.new_start,
        j > 0 ==> split_view(h)[j].old_start == split_view(h)[j - 1].old_start + split_view(
            h,
        )[j - 1].old_len() && split_view(h)[j].new_start == split_view(h)[j - 1].new_start
            + split_view(h)[j - 1].new_len(),
{
    let cs = cuts(h.lines);
    let n = h.lines.len() as int;
    lemma_cuts_bounds(h.lines, n);
    if j > 0 {
        let a = piece_start(cs, j - 1);
        let b = piece_start(cs, j);
        assert(b == piece_end(cs, j - 1, n));
        lemma_count_parts(h.lines.take(b), a);
        assert(h.lines.take(b).take(a) == h.lines.take(a));
        assert(h.lines.take(b).skip(a) == h.lines.subrange(a, b));
    } else {
        assert(h.lines.take(0).len() == 0);
    }
}

/// The cuts below `i` are the lines below `i` at which a new hunk begins.
proof fn lemma_cuts_are_cuts(lines: Seq<LineView>, i: int)
    requires
        0 <= i <= lines.len(),
    ensures
        forall|c: int| #[trigger]
            cuts_below(lines, i).contains(c) <==> 0 <= c < i && is_cut(lines, c),
    decreases i,
{
    if i > 0 {
        lemma_cuts_are_cuts(lines, i - 1);
        let before = cuts_below(lines, i - 1);
        assert forall|c: int| #[trigger]
            cuts_below(lines, i).contains(c) <==> 0 <= c < i && is_cut(lines, c) by {
            assert(before.contains(c) <==> 0 <= c < i - 1 && is_cut(lines, c));
            if is_cut(lines, i - 1) {
                crate::paths::lemma_push_contains(before, i - 1, c);
            }
        }
    } else {
        assert forall|c: int| !(#[trigger] cuts_below(lines, i).contains(c)) by {}
    }
}

/// The last changed line is a changed line, and no changed line comes
/// after it.
proof fn lemma_last_change(lines: Seq<LineView>)
    ensures
        -1 <= last_change(lines) < lines.len(),
        last_change(lines) >= 0 ==> is_change(lines[last_change(lines)]),
        forall|d: int| 0 <= d < lines.len() && is_change(#[trigger] lines[d]) ==> d <= last_change(
            lines,
        ),
    decreases lines.len(),
{
    if lines.len() > 0 {
        lemma_last_change(lines.drop_last());
        assert forall|d: int| 0 <= d < lines.len() && is_change(#[trigger] lines[d]) implies d
            <= last_change(lines) by {
            if d < lines.len() - 1 {
                assert(lines.drop_last()[d] == lines[d]);
            }
        }
    }
}

/// Each of the hunks that a hunk splits into holds one run of changed lines
/// at most: it cannot be split again.
pub proof fn lemma_pieces_minimal(h: HunkView, j: int)
    requires
        0 <= j < split_view(h).len(),
    ensures
        cuts(split_view(h)[j].lines).len() == 0,
        split_view(split_view(h)[j]) == seq![split_view(h)[j]],
{
    let lines = h.lines;
    let n = lines.len() as int;
    let cs = cuts(lines);
    let a = piece_start(cs, j);
    let b = piece_end(cs, j, n);
    let piece = lines.subrange(a, b);
    lemma_cuts_bounds(lines, n);
    lemma_cuts_are_cuts(lines, n);
    lemma_cuts_are_cuts(piece, piece.len() as int);
    lemma_last_change(piece);
    lemma_last_change(lines);
    let found = cuts(piece);
    if found.len() > 0 {
        let k = found[0];
        assert(found.contains(k));
        assert(is_cut(piece, k));
        let d = last_change(piece);
        assert(is_change(lines[a + d]));
        assert(piece[k] == lines[a + k]);
        assert(piece[k - 1] == lines[a + k - 1]);
        assert(is_cut(lines, a + k));
        assert(cs.contains(a + k));
        let m = crate::paths::lemma_index_of(cs, a + k);
        if j > 0 {
            assert(cs[j - 1] < cs[m]);
        }
        if j < cs.len() {
            assert(cs[m] < cs[j]);
        }
        assert(false);
    }
    lemma_unsplit(split_view(h)[j]);
}

/// Lines whose changed lines stand together, from `p` up to `q`, hold no
/// cut: neither lines of context alone nor a single changed line can be
/// split.
pub proof fn lemma_one_run_no_cut(lines: Seq<LineView>, p: int, q: int)
    requires
        0 <= p <= q <= lines.len(),
        forall|i: int| 0 <= i < lines.len() ==> (is_change(#[trigger] lines[i]) <==> p <= i < q),
    ensures
        cuts(lines).len() == 0,
{
    let found = cuts(lines);
    lemma_cuts_are_cuts(lines, lines.len() as int);
    lemma_last_change(lines);
    if found.len() > 0 {
        let c = found[0];
        assert(found.contains(c));
        assert(is_cut(lines, c));
        assert(is_change(lines[c - 1]));
        assert(!is_change(lines[c]));
        assert(is_change(lines[last_change(lines)]));
        assert(false);
    }
}

/// A hunk that holds no cut splits into itself.
pub proof fn lemma_unsplit(h: HunkView)
    requires
        cuts(h.lines).len() == 0,
    ensures
        split_view(h) == seq![h],
{
    assert(h.lines.subrange(0, h.lines.len() as int) == h.lines);
    assert(h.lines.take(0).len() == 0);
    assert(split_view(h) =~= seq![h]);
}

/// The index after the last changed line of `lines`, or zero.
fn after_last_change(lines: &Vec<Line>) -> (n: usize)
    ensures
        n == last_change(lines_view(lines@)) + 1,
{
    let ghost all = lines_view(lines@);
    let mut n: usize = 0;
    let mut i: usize = 0;
    while i < lines.len()
        invariant
            i <= lines@.len(),
            all == lines_view(lines@),
            n == last_change(all.take(i as int)) + 1,
            n <= i,
        decreases lines@.len() - i,
    {
        proof {
            assert(all.take(i + 1).drop_last() == all.take(i as int));
        }
        if lines[i].kind != LineKind::Context {
            n = i + 1;
        }
        i += 1;
    }
    proof {
        assert(all.take(i as int) == all);
    }
    n
}

/// Splits `hunk` into one hunk for each run of changed lines.
pub fn split_hunk(hunk: &Hunk) -> (pieces: Vec<Hunk>)
    ensures
        hunks_view(pieces@) == split_view(hunk@),
{
    let lines = hunk.lines();
    let ghost all = hunk@.lines;
    let n = lines.len();
    let limit = after_last_change(lines);
    let mut pieces: Vec<Hunk> = Vec::new();
    let ghost mut found: Seq<int> = Seq::empty();
    let mut start: usize = 0;
    let mut old_at_start: usize = 0;
    let mut new_at_start: usize = 0;
    let mut old_run: usize = 0;
    let mut new_run: usize = 0;
    let mut c: usize = 0;
    let old_len = hunk.old_len();
    let new_len = hunk.new_len();
    proof {
        lemma_counts_bounded(all);
        lemma_count_parts(all, 0);
    }
    while c < n
        invariant
            all == hunk@.lines,
            all == lines_view(lines@),
            n == lines@.len(),
            limit == last_change(all) + 1,
            start <= c <= n,
            found == cuts_below(all, c as int),
            start == piece_start(found, found.len() as int),
            old_at_start == old_count(all.take(start as int)),
            new_at_start == new_count(all.take(start as int)),
            old_run == old_count(all.take(c as int)),
            new_run == new_count(all.take(c as int)),
            old_at_start <= old_run <= old_count(all),
            new_at_start <= new_run <= new_count(all),
            hunk@.old_start + old_count(all) <= usize::MAX,
            hunk@.new_start + new_count(all) <= usize::MAX,
            pieces@.len() == found.len(),
            forall|j: int|
                0 <= j < pieces@.len() ==> (#[trigger] pieces@[j])@ == piece_with(
                    hunk@,
                    found,
                    j,
                ),
        decreases n - c,
    {
        proof {
            assert(all.take(c + 1).drop_last() == all.take(c as int));
            lemma_count_parts(all, c + 1);
            lemma_cuts_bounds(all, c as int);
        }
        if c > 0 && c + 1 < limit && lines[c].kind == LineKind::Context && lines[c - 1].kind
            != LineKind::Context {
            let part = copy_lines(lines, start, c);
            proof {
                lemma_count_parts(all.take(c as int), start as int);
                assert(all.take(c as int).take(start as int) == all.take(start as int));
                assert(all.take(c as int).skip(start as int) == all.subrange(
                    start as int,
                    c as int,
                ));
            }
            let piece = Hunk::assemble(
                hunk.old_start() + old_at_start,
                old_run - old_at_start,
                hunk.new_start() + new_at_start,
                new_run - new_at_start,
                part,
            );
            let ghost before = found;
            proof {
                found = found.push(c as int);
                assert forall|j: int| 0 <= j < pieces@.len() implies piece_with(hunk@, found, j)
                    == piece_with(hunk@, before, j) by {}
            }
            pieces.push(piece);
            start = c;
            old_at_start = old_run;
            new_at_start = new_run;
        }
        match lines[c].kind {
            LineKind::Context => {
                old_run += 1;
                new_run += 1;
            },
            LineKind::Delete => {
                old_run += 1;
            },
            LineKind::Insert => {
                new_run += 1;
            },
        }
        c += 1;
    }
    let part = copy_lines(lines, start, n);
    proof {
        assert(all.take(n as int) == all);
        lemma_count_parts(all, start as int);
        assert(all.skip(start as int) == all.subrange(start as int, n as int));
    }
    let piece = Hunk::assemble(
        hunk.old_start() + old_at_start,
        old_run - old_at_start,
        hunk.new_start() + new_at_start,
        new_run - new_at_start,
        part,
    );
    pieces.push(piece);
    proof {
        assert(hunks_view(pieces@) =~= split_view(hunk@));
    }
    pieces
}

/// Whether hunk `i` of `hunks` can be split: it is there, and it holds more
/// than one run of changed lines.
pub open spec fn can_split(hunks: Seq<HunkView>, i: int) -> bool {
    0 <= i < hunks.len() && cuts(hunks[i].lines).len() > 0
}

/// Splits hunk `i` of `patch` in place and returns the number of hunks that
/// stand there afterwards, from `i` on. Where the hunk cannot be split the
/// patch is left as it is, and the number is one.
pub fn split_hunk_at(patch: &mut Vec<Hunk>, i: usize) -> (n: usize)
    ensures
        can_split(hunks_view(old(patch)@), i as int) ==> {
            &&& n == cuts(old(patch)@[i as int]@.lines).len() + 1
            &&& hunks_view(final(patch)@) == hunks_view(old(patch)@).take(i as int) + split_view(
                old(patch)@[i as int]@,
            ) + hunks_view(old(patch)@).skip(i + 1)
        },
        !can_split(hunks_view(old(patch)@), i as int) ==> {
            &&& n == 1
            &&& final(patch)@ == old(patch)@
        },
{
    if i >= patch.len() {
        return 1;
    }
    let mut pieces = split_hunk(&patch[i]);
    let n = pieces.len();
    proof {
        assert(hunks_view(pieces@).len() == pieces@.len());
        assert(hunks_view(patch@)[i as int] == patch@[i as int]@);
    }
    if n == 1 {
        return 1;
    }
    let ghost before = patch@;
    let ghost parts = pieces@;
    patch.remove(i);
    let ghost rest = patch@;
    while pieces.len() > 0
        invariant
            i <= rest.len(),
            rest == before.remove(i as int),
            pieces@ == parts.take(pieces@.len() as int),
            pieces@.len() <= parts.len(),
            patch@ == rest.take(i as int) + parts.skip(pieces@.len() as int) + rest.skip(i as int),
        decreases pieces@.len(),
    {
        let ghost k = pieces@.len() as int;
        let piece = pieces.pop().unwrap();
        patch.insert(i, piece);
        proof {
            assert(parts.skip(k - 1) == seq![parts[k - 1]] + parts.skip(k));
            assert(pieces@ == parts.take(k - 1));
            assert(patch@ == rest.take(i as int) + parts.skip(k - 1) + rest.skip(i as int));
        }
    }
    proof {
        assert(parts.skip(0) == parts);
        assert(patch@ == before.take(i as int) + parts + before.skip(i + 1));
        assert(hunks_view(patch@) =~= hunks_view(before).take(i as int) + hunks_view(parts)
            + hunks_view(before).skip(i + 1));
    }
    n
}

} // verus!
