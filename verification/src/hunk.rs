//! Hunks: contiguous regions of a text diff, held as plain values.

use vstd::prelude::*;

verus! {

/// What a line of a hunk does to the text.
#[derive(Clone, Copy, Debug, PartialEq, Eq, Structural)]
pub enum LineKind {
    /// The line stands in both texts.
    Context,
    /// The line stands in the original text only.
    Delete,
    /// The line stands in the modified text only.
    Insert,
}

/// One line of a hunk. The text ends with its line feed, unless the line is
/// the last of a text that does not end with one.
#[derive(Debug)]
pub struct Line {
    pub kind: LineKind,
    pub text: String,
}

/// A line as a value of the model.
pub ghost struct LineView {
    pub kind: LineKind,
    pub text: Seq<char>,
}

impl View for Line {
    type V = LineView;

    open spec fn view(&self) -> LineView {
        LineView { kind: self.kind, text: self.text@ }
    }
}

impl Line {
    /// A line that stands in both texts.
    pub fn context(text: &str) -> (l: Line)
        ensures
            l@ == (LineView { kind: LineKind::Context, text: text@ }),
    {
        Line { kind: LineKind::Context, text: text.to_owned() }
    }

    /// A line that stands in the original text only.
    pub fn delete(text: &str) -> (l: Line)
        ensures
            l@ == (LineView { kind: LineKind::Delete, text: text@ }),
    {
        Line { kind: LineKind::Delete, text: text.to_owned() }
    }

    /// A line that stands in the modified text only.
    pub fn insert(text: &str) -> (l: Line)
        ensures
            l@ == (LineView { kind: LineKind::Insert, text: text@ }),
    {
        Line { kind: LineKind::Insert, text: text.to_owned() }
    }
}

impl Clone for Line {
    fn clone(&self) -> (r: Self)
        ensures
            r@ == self@,
    {
        Line { kind: self.kind, text: self.text.clone() }
    }
}

/// The lines of `lines` as values of the model.
pub open spec fn lines_view(lines: Seq<Line>) -> Seq<LineView> {
    lines.map_values(|l: Line| l@)
}

/// The number of lines of `lines` that stand in the original text.
pub open spec fn old_count(lines: Seq<LineView>) -> nat
    decreases lines.len(),
{
    if lines.len() == 0 {
        0
    } else {
        old_count(lines.drop_last()) + if lines.last().kind == LineKind::Insert {
            0nat
        } else {
            1nat
        }
    }
}

/// The number of lines of `lines` that stand in the modified text.
pub open spec fn new_count(lines: Seq<LineView>) -> nat
    decreases lines.len(),
{
    if lines.len() == 0 {
        0
    } else {
        new_count(lines.drop_last()) + if lines.last().kind == LineKind::Delete {
            0nat
        } else {
            1nat
        }
    }
}

/// A hunk as a value of the model: where it starts in each text, and its
/// lines. The lengths of its two ranges are the counts of its lines.
pub ghost struct HunkView {
    pub old_start: nat,
    pub new_start: nat,
    pub lines: Seq<LineView>,
}

impl HunkView {
    /// The number of lines that the hunk covers in the original text.
    pub open spec fn old_len(self) -> nat {
        old_count(self.lines)
    }

    /// The number of lines that the hunk covers in the modified text.
    pub open spec fn new_len(self) -> nat {
        new_count(self.lines)
    }

    /// The hunk that undoes this one.
    pub open spec fn reversed(self) -> HunkView {
        HunkView {
            old_start: self.new_start,
            new_start: self.old_start,
            lines: self.lines.map_values(|l: LineView| reversed_line(l)),
        }
    }
}

/// The kind of line that undoes a line of kind `kind`.
pub open spec fn reversed_kind(kind: LineKind) -> LineKind {
    match kind {
        LineKind::Context => LineKind::Context,
        LineKind::Delete => LineKind::Insert,
        LineKind::Insert => LineKind::Delete,
    }
}

/// The line that undoes `l`.
pub open spec fn reversed_line(l: LineView) -> LineView {
    LineView { kind: reversed_kind(l.kind), text: l.text }
}

/// A contiguous region of a diff: context, removed and added lines, with the
/// places in the two texts where it stands.
#[derive(Debug)]
pub struct Hunk {
    old_start: usize,
    old_len: usize,
    new_start: usize,
    new_len: usize,
    lines: Vec<Line>,
}

impl View for Hunk {
    type V = HunkView;

    closed spec fn view(&self) -> HunkView {
        HunkView {
            old_start: self.old_start as nat,
            new_start: self.new_start as nat,
            lines: lines_view(self.lines@),
        }
    }
}

/// The hunks of `hunks` as values of the model.
pub open spec fn hunks_view(hunks: Seq<Hunk>) -> Seq<HunkView> {
    hunks.map_values(|h: Hunk| h@)
}

/// No more lines stand in either text than the hunk has.
pub proof fn lemma_counts_bounded(lines: Seq<LineView>)
    ensures
        old_count(lines) <= lines.len(),
        new_count(lines) <= lines.len(),
    decreases lines.len(),
{
    if lines.len() > 0 {
        lemma_counts_bounded(lines.drop_last());
    }
}

/// Counting commutes with reversal: what stood in the original text stands
/// in the modified text of the reversed lines.
pub proof fn lemma_counts_reversed(lines: Seq<LineView>)
    ensures
        old_count(lines.map_values(|l: LineView| reversed_line(l))) == new_count(lines),
        new_count(lines.map_values(|l: LineView| reversed_line(l))) == old_count(lines),
    decreases lines.len(),
{
    let rev = lines.map_values(|l: LineView| reversed_line(l));
    if lines.len() > 0 {
        lemma_counts_reversed(lines.drop_last());
        assert(rev.drop_last() == lines.drop_last().map_values(|l: LineView| reversed_line(l)));
    }
}

impl Hunk {
    /// The ranges are as long as the lines say, and end within `usize`.
    #[verifier::type_invariant]
    spec fn wf(self) -> bool {
        &&& self.old_len == old_count(lines_view(self.lines@))
        &&& self.new_len == new_count(lines_view(self.lines@))
        &&& self.old_start + self.old_len <= usize::MAX
        &&& self.new_start + self.new_len <= usize::MAX
    }

    /// The hunk of `lines` that starts at `old_start` in the original text
    /// and at `new_start` in the modified text; `None` where a range would
    /// end beyond `usize`.
    pub fn new(old_start: usize, new_start: usize, lines: Vec<Line>) -> (r: Option<Hunk>)
        ensures
            r is Some <==> old_start + old_count(lines_view(lines@)) <= usize::MAX && new_start
                + new_count(lines_view(lines@)) <= usize::MAX,
            r matches Some(h) ==> h@ == (HunkView {
                old_start: old_start as nat,
                new_start: new_start as nat,
                lines: lines_view(lines@),
            }),
    {
        let mut old_len: usize = 0;
        let mut new_len: usize = 0;
        let ghost all = lines_view(lines@);
        let mut i: usize = 0;
        while i < lines.len()
            invariant
                i <= lines@.len(),
                all == lines_view(lines@),
                old_len == old_count(all.take(i as int)),
                new_len == new_count(all.take(i as int)),
                old_len <= i,
                new_len <= i,
            decreases lines@.len() - i,
        {
            proof {
                assert(all.take(i + 1).drop_last() == all.take(i as int));
            }
            match lines[i].kind {
                LineKind::Context => {
                    old_len += 1;
                    new_len += 1;
                },
                LineKind::Delete => {
                    old_len += 1;
                },
                LineKind::Insert => {
                    new_len += 1;
                },
            }
            i += 1;
        }
        proof {
            assert(all.take(i as int) == all);
        }
        if old_len > usize::MAX - old_start || new_len > usize::MAX - new_start {
            None
        } else {
            Some(Hunk { old_start, old_len, new_start, new_len, lines })
        }
    }

    /// The hunk with the given ranges and lines, which must agree.
    pub(crate) fn assemble(
        old_start: usize,
        old_len: usize,
        new_start: usize,
        new_len: usize,
        lines: Vec<Line>,
    ) -> (h: Hunk)
        requires
            old_len == old_count(lines_view(lines@)),
            new_len == new_count(lines_view(lines@)),
            old_start + old_len <= usize::MAX,
            new_start + new_len <= usize::MAX,
        ensures
            h@ == (HunkView {
                old_start: old_start as nat,
                new_start: new_start as nat,
                lines: lines_view(lines@),
            }),
    {
        Hunk { old_start, old_len, new_start, new_len, lines }
    }

    /// The hunk without lines, which changes nothing wherever it is applied.
    pub fn empty() -> (h: Hunk)
        ensures
            h@ == (HunkView { old_start: 0, new_start: 0, lines: Seq::empty() }),
    {
        let lines: Vec<Line> = Vec::new();
        proof {
            assert(lines_view(lines@) == Seq::<LineView>::empty());
        }
        Hunk { old_start: 0, old_len: 0, new_start: 0, new_len: 0, lines }
    }

    /// The first line of the original text that the hunk covers, counted
    /// from one.
    pub fn old_start(&self) -> (n: usize)
        ensures
            n == self@.old_start,
    {
        self.old_start
    }

    /// The number of lines of the original text that the hunk covers. The
    /// range ends within `usize`.
    pub fn old_len(&self) -> (n: usize)
        ensures
            n == self@.old_len(),
            self@.old_start + n <= usize::MAX,
    {
        proof {
            use_type_invariant(self);
        }
        self.old_len
    }

    /// The first line of the modified text that the hunk covers, counted
    /// from one.
    pub fn new_start(&self) -> (n: usize)
        ensures
            n == self@.new_start,
    {
        self.new_start
    }

    /// The number of lines of the modified text that the hunk covers. The
    /// range ends within `usize`.
    pub fn new_len(&self) -> (n: usize)
        ensures
            n == self@.new_len(),
            self@.new_start + n <= usize::MAX,
    {
        proof {
            use_type_invariant(self);
        }
        self.new_len
    }

    /// The lines of the hunk.
    pub fn lines(&self) -> (lines: &Vec<Line>)
        ensures
            lines_view(lines@) == self@.lines,
    {
        &self.lines
    }

    /// The hunk that undoes this one: the two ranges change places, removed
    /// lines become added lines and added lines removed ones.
    pub fn reverse(&self) -> (r: Hunk)
        ensures
            r@ == self@.reversed(),
    {
        proof {
            use_type_invariant(self);
        }
        let mut lines: Vec<Line> = Vec::new();
        let mut i: usize = 0;
        while i < self.lines.len()
            invariant
                i <= self.lines@.len(),
                lines@.len() == i,
                forall|j: int| 0 <= j < i ==> (#[trigger] lines@[j])@ == reversed_line(self.lines@[j]@),
            decreases self.lines@.len() - i,
        {
            let l = &self.lines[i];
            let kind = match l.kind {
                LineKind::Context => LineKind::Context,
                LineKind::Delete => LineKind::Insert,
                LineKind::Insert => LineKind::Delete,
            };
            lines.push(Line { kind, text: l.text.clone() });
            i += 1;
        }
        proof {
            lemma_counts_reversed(self@.lines);
            assert(lines_view(lines@) == self@.lines.map_values(|l: LineView| reversed_line(l)));
        }
        Hunk {
            old_start: self.new_start,
            old_len: self.new_len,
            new_start: self.old_start,
            new_len: self.old_len,
            lines,
        }
    }
}

impl Clone for Hunk {
    fn clone(&self) -> (r: Self)
        ensures
            r@ == self@,
    {
        proof {
            use_type_invariant(self);
        }
        let mut lines: Vec<Line> = Vec::new();
        let mut i: usize = 0;
        while i < self.lines.len()
            invariant
                i <= self.lines@.len(),
                lines@.len() == i,
                forall|j: int| 0 <= j < i ==> (#[trigger] lines@[j])@ == self.lines@[j]@,
            decreases self.lines@.len() - i,
        {
            lines.push(self.lines[i].clone());
            i += 1;
        }
        proof {
            assert(lines_view(lines@) == lines_view(self.lines@));
        }
        Hunk {
            old_start: self.old_start,
            old_len: self.old_len,
            new_start: self.new_start,
            new_len: self.new_len,
            lines,
        }
    }
}

/// The lines of `lines` from `a` up to `b`.
pub fn copy_lines(lines: &Vec<Line>, a: usize, b: usize) -> (part: Vec<Line>)
    requires
        a <= b <= lines@.len(),
    ensures
        lines_view(part@) == lines_view(lines@).subrange(a as int, b as int),
{
    let mut part: Vec<Line> = Vec::new();
    let mut i: usize = a;
    while i < b
        invariant
            a <= i <= b <= lines@.len(),
            part@.len() == i - a,
            forall|j: int| 0 <= j < i - a ==> (#[trigger] part@[j])@ == lines@[a + j]@,
        decreases b - i,
    {
        part.push(lines[i].clone());
        i += 1;
    }
    proof {
        assert(lines_view(part@) == lines_view(lines@).subrange(a as int, b as int));
    }
    part
}

/// A hunk as the diff engine hands it over: where it starts in each text,
/// and its lines.
pub struct RawHunk {
    pub old_start: usize,
    pub new_start: usize,
    pub lines: Vec<Line>,
}

impl View for RawHunk {
    type V = HunkView;

    open spec fn view(&self) -> HunkView {
        HunkView {
            old_start: self.old_start as nat,
            new_start: self.new_start as nat,
            lines: lines_view(self.lines@),
        }
    }
}

/// The hunks of `raw` as values of the model.
pub open spec fn raw_view(raw: Seq<RawHunk>) -> Seq<HunkView> {
    raw.map_values(|h: RawHunk| h@)
}

/// Whether both ranges of every hunk of `hunks` end within `usize`.
pub open spec fn all_fit(hunks: Seq<HunkView>) -> bool {
    forall|i: int|
        0 <= i < hunks.len() ==> (#[trigger] hunks[i]).old_start + hunks[i].old_len()
            <= usize::MAX && hunks[i].new_start + hunks[i].new_len() <= usize::MAX
}

/// The hunks of `raw`, their lines counted.
pub fn hunks_of(raw: &Vec<RawHunk>) -> (hunks: Vec<Hunk>)
    requires
        all_fit(raw_view(raw@)),
    ensures
        hunks_view(hunks@) == raw_view(raw@),
{
    let mut hunks: Vec<Hunk> = Vec::new();
    let mut i: usize = 0;
    while i < raw.len()
        invariant
            i <= raw@.len(),
            all_fit(raw_view(raw@)),
            hunks@.len() == i,
            forall|j: int| 0 <= j < i ==> (#[trigger] hunks@[j])@ == raw@[j]@,
        decreases raw@.len() - i,
    {
        let r = &raw[i];
        let lines = copy_lines(&r.lines, 0, r.lines.len());
        proof {
            assert(lines_view(r.lines@).subrange(0, r.lines@.len() as int) == lines_view(
                r.lines@,
            ));
            assert(raw_view(raw@)[i as int] == r@);
        }
        match Hunk::new(r.old_start, r.new_start, lines) {
            Some(h) => {
                hunks.push(h);
            },
            None => {
                proof {
                    assert(false);
                }
            },
        }
        i += 1;
    }
    proof {
        assert(hunks_view(hunks@) =~= raw_view(raw@));
    }
    hunks
}

/// `hunk` itself, or the hunk that undoes it where `reverse` is set.
pub fn reverse_if(hunk: &Hunk, reverse: bool) -> (r: Hunk)
    ensures
        r@ == if reverse {
            hunk@.reversed()
        } else {
            hunk@
        },
{
    if reverse {
        hunk.reverse()
    } else {
        hunk.clone()
    }
}

} // verus!
