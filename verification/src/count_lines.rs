//! Counting the terminal rows that a burst of output occupies, so that
//! exactly those rows can be erased again: escape sequences take no room, and
//! a line longer than the terminal is wide wraps.

use vstd::prelude::*;
use vstd::slice::slice_subrange;

verus! {

/// The escape byte that opens a control sequence.
pub const ESC: u8 = 0x1b;

/// The line feed.
pub const NEWLINE: u8 = 0x0a;

/// Where a scan stands within a control sequence: `0` in plain text, `1`
/// after the escape byte, `2` among the parameter bytes, `3` among the
/// intermediate bytes.
pub open spec fn csi_step(state: int, b: u8) -> int {
    if state == 0 {
        if b == ESC {
            1
        } else {
            0
        }
    } else if state == 1 {
        if b == 0x5b {
            2
        } else {
            1
        }
    } else if state == 2 && 0x30 <= b <= 0x3f {
        2
    } else if (state == 2 || state == 3) && 0x20 <= b <= 0x2f {
        3
    } else if (state == 2 || state == 3) && 0x40 <= b <= 0x7e {
        0
    } else {
        state
    }
}

/// Whether the byte `b`, met in `state`, shows on the screen.
pub open spec fn is_visible(state: int, b: u8) -> bool {
    state == 0 && b != ESC
}

/// The state of the scan after all of `s`, started in plain text.
pub open spec fn csi_state(s: Seq<u8>) -> int
    decreases s.len(),
{
    if s.len() == 0 {
        0
    } else {
        csi_step(csi_state(s.drop_last()), s.last())
    }
}

/// The number of bytes of `s` that show on the screen.
pub open spec fn visible_len(s: Seq<u8>) -> nat
    decreases s.len(),
{
    if s.len() == 0 {
        0
    } else {
        visible_len(s.drop_last()) + if is_visible(csi_state(s.drop_last()), s.last()) {
            1nat
        } else {
            0nat
        }
    }
}

/// The number of visible bytes in `bytes`: those outside control sequences
/// of the form escape, `[`, parameter bytes, intermediate bytes, final byte.
pub fn stripped_size(bytes: &[u8]) -> (n: usize)
    ensures
        n == visible_len(bytes@),
        n <= bytes@.len(),
{
    let mut count: usize = 0;
    let mut state: u8 = 0;
    let mut k: usize = 0;
    while k < bytes.len()
        invariant
            k <= bytes@.len(),
            count == visible_len(bytes@.take(k as int)),
            state == csi_state(bytes@.take(k as int)),
            count <= k,
            0 <= state <= 3,
        decreases bytes@.len() - k,
    {
        let b: u8 = bytes[k];
        proof {
            assert(bytes@.take(k + 1).drop_last() == bytes@.take(k as int));
        }
        if state == 0 {
            if b == ESC {
                state = 1;
            } else {
                count += 1;
            }
        } else if state == 1 {
            if b == 0x5b {
                state = 2;
            }
        } else if state == 2 && 0x30 <= b && b <= 0x3f {
            state = 2;
        } else if 0x20 <= b && b <= 0x2f {
            state = 3;
        } else if 0x40 <= b && b <= 0x7e {
            state = 0;
        }
        k += 1;
    }
    proof {
        assert(bytes@.take(k as int) == bytes@);
    }
    count
}

/// Whether `e` is a control sequence whose parameter bytes end before
/// `p`: the escape byte, `[`, parameter bytes up to `p`, intermediate
/// bytes from there on, and a final byte.
pub open spec fn is_csi(e: Seq<u8>, p: int) -> bool {
    &&& 2 <= p < e.len()
    &&& e[0] == ESC
    &&& e[1] == 0x5b
    &&& forall|i: int| 2 <= i < p ==> 0x30 <= #[trigger] e[i] <= 0x3f
    &&& forall|i: int| p <= i < e.len() - 1 ==> 0x20 <= #[trigger] e[i] <= 0x2f
    &&& 0x40 <= e[e.len() - 1] <= 0x7e
}

/// Whether `t` holds no escape byte.
pub open spec fn is_plain(t: Seq<u8>) -> bool {
    forall|i: int| 0 <= i < t.len() ==> #[trigger] t[i] != ESC
}

/// A text that follows a text whose scan has come back to plain text is
/// counted by itself.
pub proof fn lemma_visible_len_concat(a: Seq<u8>, b: Seq<u8>)
    requires
        csi_state(a) == 0,
    ensures
        csi_state(a + b) == csi_state(b),
        visible_len(a + b) == visible_len(a) + visible_len(b),
    decreases b.len(),
{
    if b.len() == 0 {
        assert(a + b == a);
    } else {
        lemma_visible_len_concat(a, b.drop_last());
        assert((a + b).drop_last() == a + b.drop_last());
    }
}

/// Every byte of a text without escape bytes is visible.
pub proof fn lemma_plain_visible(t: Seq<u8>)
    requires
        is_plain(t),
    ensures
        csi_state(t) == 0,
        visible_len(t) == t.len(),
    decreases t.len(),
{
    if t.len() > 0 {
        lemma_plain_visible(t.drop_last());
    }
}

/// What a scan has seen after the first `k` bytes of a control sequence:
/// nothing visible, and the part of the sequence that it stands in.
proof fn lemma_csi_prefix(e: Seq<u8>, p: int, k: int)
    requires
        is_csi(e, p),
        0 <= k < e.len(),
    ensures
        visible_len(e.take(k)) == 0,
        csi_state(e.take(k)) == if k == 0 {
            0int
        } else if k == 1 {
            1
        } else if k <= p {
            2
        } else {
            3
        },
    decreases k,
{
    if k > 0 {
        lemma_csi_prefix(e, p, k - 1);
        assert(e.take(k).drop_last() == e.take(k - 1));
        assert(e.take(k).last() == e[k - 1]);
    }
}

/// No byte of a control sequence is visible, and after it the scan is back
/// in plain text.
pub proof fn lemma_csi_invisible(e: Seq<u8>, p: int)
    requires
        is_csi(e, p),
    ensures
        csi_state(e) == 0,
        visible_len(e) == 0,
{
    lemma_csi_prefix(e, p, e.len() - 1);
    assert(e.drop_last() == e.take(e.len() - 1));
}

/// A text between two control sequences, such as one that sets a colour
/// and one that resets it, is as long on the screen as the text alone.
pub proof fn lemma_colored_visible_len(start: Seq<u8>, p: int, text: Seq<u8>, end: Seq<u8>, q: int)
    requires
        is_csi(start, p),
        is_plain(text),
        is_csi(end, q),
    ensures
        visible_len(start + text + end) == text.len(),
{
    lemma_csi_invisible(start, p);
    lemma_plain_visible(text);
    lemma_csi_invisible(end, q);
    lemma_visible_len_concat(start, text);
    lemma_visible_len_concat(start + text, end);
}

/// The index of the first line feed in `s`, or the length of `s` where it
/// holds none.
pub open spec fn first_newline(s: Seq<u8>) -> int
    decreases s.len(),
{
    if s.len() == 0 || s[0] == NEWLINE {
        0
    } else {
        1 + first_newline(s.drop_first())
    }
}

/// The rows that are full once `visible` more bytes follow `chars` bytes on a
/// line of `width` columns: a row counts as full only when a byte follows it.
pub open spec fn wrapped_rows(chars: int, visible: int, width: int) -> int {
    if chars + visible > 0 {
        (chars + visible - 1) / width
    } else {
        0
    }
}

/// The counters `(rows, column)` after the bytes `buf` were written from
/// `(lines, chars)` on a terminal of `width` columns. Each line feed ends a
/// row and returns to column zero; before it, the visible bytes of the line
/// wrap at `width`.
pub open spec fn account(lines: int, chars: int, buf: Seq<u8>, width: int) -> (int, int)
    decreases buf.len(),
{
    let k = first_newline(buf);
    let visible = visible_len(buf.take(k)) as int;
    let l = lines + wrapped_rows(chars, visible, width);
    let c = (chars + visible) % width;
    if 0 <= k < buf.len() {
        account(l + 1, 0, buf.skip(k + 1), width)
    } else {
        (l, c)
    }
}

/// The first line feed stands at `m` where none stands before `m`.
proof fn lemma_first_newline(s: Seq<u8>, m: int)
    requires
        0 <= m <= s.len(),
        forall|i: int| 0 <= i < m ==> s[i] != NEWLINE,
        m == s.len() || s[m] == NEWLINE,
    ensures
        first_newline(s) == m,
    decreases m,
{
    if m > 0 {
        lemma_first_newline(s.drop_first(), m - 1);
    }
}

/// A line wraps no more often than it has visible bytes, and the column
/// stays within the terminal.
proof fn lemma_wrap_bounds(chars: int, visible: int, width: int)
    requires
        0 <= chars < width,
        0 <= visible,
    ensures
        0 <= wrapped_rows(chars, visible, width) <= visible,
        0 <= (chars + visible) % width < width,
{
    if visible > 0 {
        assert(0 <= (chars + visible - 1) / width <= visible) by (nonlinear_arith)
            requires
                0 <= chars < width,
                1 <= visible,
        ;
    } else if chars > 0 {
        assert((chars - 1) / width == 0) by (nonlinear_arith)
            requires
                0 < chars < width,
        ;
    }
    assert(0 <= (chars + visible) % width < width) by (nonlinear_arith)
        requires
            0 < width,
    ;
}

/// The row accountant of one burst of output.
///
/// It stands for the output stream that it measures: the caller hands each
/// chunk to [`CountLines::write`] as it sends it to the terminal.
pub struct CountLines {
    lines_written: usize,
    chars_written: usize,
    term_width: usize,
}

impl CountLines {
    /// The full rows counted since the last [`CountLines::take_lineno`].
    pub closed spec fn lines(&self) -> int {
        self.lines_written as int
    }

    /// The visible bytes on the row that is being written.
    pub closed spec fn column(&self) -> int {
        self.chars_written as int
    }

    /// The width of the terminal, in columns.
    pub closed spec fn width(&self) -> int {
        self.term_width as int
    }

    /// The column lies within the terminal, whose width is positive.
    pub open spec fn wf(&self) -> bool {
        0 <= self.column() < self.width() <= u16::MAX
    }

    /// An accountant for a terminal of `term_width` columns, with nothing
    /// counted yet.
    pub fn new(term_width: u16) -> (c: Self)
        requires
            term_width > 0,
        ensures
            c.wf(),
            c.lines() == 0,
            c.column() == 0,
            c.width() == term_width,
    {
        CountLines { lines_written: 0, chars_written: 0, term_width: term_width as usize }
    }

    /// Hands out the number of rows counted, cut to 16 bits, and starts
    /// counting again from zero.
    pub fn take_lineno(&mut self) -> (n: u16)
        requires
            old(self).wf(),
        ensures
            n == old(self).lines() % 0x10000,
            final(self).wf(),
            final(self).lines() == 0,
            final(self).column() == 0,
            final(self).width() == old(self).width(),
    {
        let lines: usize = self.lines_written;
        self.lines_written = 0;
        self.chars_written = 0;
        (lines % 0x10000) as u16
    }

    /// Counts the rows that `buf` occupies when written after what was
    /// counted before.
    pub fn write(&mut self, buf: &[u8])
        requires
            old(self).wf(),
            old(self).lines() + buf@.len() + old(self).width() <= usize::MAX,
        ensures
            final(self).wf(),
            final(self).width() == old(self).width(),
            (final(self).lines(), final(self).column()) == account(
                old(self).lines(),
                old(self).column(),
                buf@,
                old(self).width(),
            ),
            old(self).lines() <= final(self).lines() <= old(self).lines() + buf@.len(),
    {
        let width: usize = self.term_width;
        let mut start: usize = 0;
        proof {
            assert(buf@.skip(0) == buf@);
        }
        loop
            invariant_except_break
                start <= buf@.len(),
                old(self).lines_written <= self.lines_written <= old(self).lines_written + start,
                account(
                    old(self).lines(),
                    old(self).column(),
                    buf@,
                    old(self).width(),
                ) == account(self.lines(), self.column(), buf@.skip(start as int), width as int),
            invariant
                self.wf(),
                self.term_width == width == old(self).term_width,
                old(self).lines() + buf@.len() + old(self).width() <= usize::MAX,
            ensures
                (self.lines(), self.column()) == account(
                    old(self).lines(),
                    old(self).column(),
                    buf@,
                    old(self).width(),
                ),
                old(self).lines() <= self.lines() <= old(self).lines() + buf@.len(),
            decreases buf@.len() - start,
        {
            let mut end: usize = start;
            while end < buf.len() && buf[end] != NEWLINE
                invariant
                    start <= end <= buf@.len(),
                    forall|i: int| start <= i < end ==> buf@[i] != NEWLINE,
                decreases buf@.len() - end,
            {
                end += 1;
            }
            let ghost rest = buf@.skip(start as int);
            let visible: usize = stripped_size(slice_subrange(buf, start, end));
            proof {
                lemma_first_newline(rest, end - start);
                assert(rest.take(end - start) == buf@.subrange(start as int, end as int));
                lemma_wrap_bounds(self.column(), visible as int, width as int);
            }
            let total: usize = self.chars_written + visible;
            if total > 0 {
                self.lines_written += (total - 1) / width;
            }
            self.chars_written = total % width;
            if end < buf.len() {
                proof {
                    assert(rest.skip(end - start + 1) == buf@.skip(end + 1));
                }
                self.lines_written += 1;
                self.chars_written = 0;
                start = end + 1;
            } else {
                break ;
            }
        }
    }
}

} // verus!
