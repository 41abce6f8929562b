//! Hunks written as unified-diff text.

use crate::hunk::{hunks_view, lines_view, Hunk, HunkView, Line, LineKind, LineView};
use crate::text::{chars_of, decimal, push_chars, push_decimal, push_str, string_of};
use vstd::prelude::*;

verus! {

/// A range as a hunk header shows it: the start, and the length unless it
/// is one.
pub open spec fn range_text(start: nat, len: nat) -> Seq<char> {
    if len == 1 {
        decimal(start)
    } else {
        decimal(start) + ","@ + decimal(len)
    }
}

/// The character that a line of kind `kind` begins with.
pub open spec fn sign(kind: LineKind) -> char {
    match kind {
        LineKind::Context => ' ',
        LineKind::Delete => '-',
        LineKind::Insert => '+',
    }
}

/// Whether `text` ends with a line feed.
pub open spec fn ends_with_newline(text: Seq<char>) -> bool {
    text.len() > 0 && text.last() == '\n'
}

/// A line as text: its sign and its text, followed by a line feed and the
/// remark that none was there where the text does not end with one.
pub open spec fn line_text(l: LineView) -> Seq<char> {
    if ends_with_newline(l.text) {
        seq![sign(l.kind)] + l.text
    } else {
        seq![sign(l.kind)] + l.text + "\n\\ No newline at end of file\n"@
    }
}

/// The lines as text, one after the other.
pub open spec fn lines_text(lines: Seq<LineView>) -> Seq<char>
    decreases lines.len(),
{
    if lines.len() == 0 {
        Seq::empty()
    } else {
        lines_text(lines.drop_last()) + line_text(lines.last())
    }
}

/// A hunk as text: the header with its two ranges, then its lines.
pub open spec fn hunk_text(h: HunkView) -> Seq<char> {
    "@@ -"@ + range_text(h.old_start, h.old_len()) + " +"@ + range_text(h.new_start, h.new_len())
        + " @@\n"@ + lines_text(h.lines)
}

/// The hunks as text, one after the other. A hunk without lines changes
/// nothing and is left out.
pub open spec fn patch_text(hunks: Seq<HunkView>) -> Seq<char>
    decreases hunks.len(),
{
    if hunks.len() == 0 {
        Seq::empty()
    } else if hunks.last().lines.len() == 0 {
        patch_text(hunks.drop_last())
    } else {
        patch_text(hunks.drop_last()) + hunk_text(hunks.last())
    }
}

/// Appends a range as a hunk header shows it.
fn push_range(out: &mut Vec<char>, start: usize, len: usize)
    ensures
        final(out)@ == old(out)@ + range_text(start as nat, len as nat),
{
    push_decimal(out, start);
    if len != 1 {
        push_str(out, ",");
        push_decimal(out, len);
    }
}

/// Appends a line as text.
fn push_line(out: &mut Vec<char>, line: &Line)
    ensures
        final(out)@ == old(out)@ + line_text(line@),
{
    let sign = match line.kind {
        LineKind::Context => ' ',
        LineKind::Delete => '-',
        LineKind::Insert => '+',
    };
    out.push(sign);
    let chars = chars_of(line.text.as_str());
    push_chars(out, chars.as_slice());
    let n = chars.len();
    if n == 0 || chars[n - 1] != '\n' {
        push_str(out, "\n\\ No newline at end of file\n");
    }
    proof {
        assert(old(out)@.push(sign) == old(out)@ + seq![sign]);
    }
}

/// Appends a hunk as text.
pub fn push_hunk(out: &mut Vec<char>, hunk: &Hunk)
    ensures
        final(out)@ == old(out)@ + hunk_text(hunk@),
{
    push_str(out, "@@ -");
    push_range(out, hunk.old_start(), hunk.old_len());
    push_str(out, " +");
    push_range(out, hunk.new_start(), hunk.new_len());
    push_str(out, " @@\n");
    let ghost head = out@;
    let lines = hunk.lines();
    let ghost all = hunk@.lines;
    let mut i: usize = 0;
    while i < lines.len()
        invariant
            i <= lines@.len(),
            all == lines_view(lines@),
            out@ == head + lines_text(all.take(i as int)),
        decreases lines@.len() - i,
    {
        proof {
            assert(all.take(i + 1).drop_last() == all.take(i as int));
        }
        push_line(out, &lines[i]);
        i += 1;
    }
    proof {
        assert(all.take(i as int) == all);
    }
}

/// The hunk as unified-diff text.
pub fn hunk_to_text(hunk: &Hunk) -> (s: String)
    ensures
        s@ == hunk_text(hunk@),
{
    let mut out: Vec<char> = Vec::new();
    push_hunk(&mut out, hunk);
    string_of(out.as_slice())
}

/// The hunks as unified-diff text, those without lines left out.
pub fn patch_to_text(hunks: &Vec<Hunk>) -> (s: String)
    ensures
        s@ == patch_text(hunks_view(hunks@)),
{
    let mut out: Vec<char> = Vec::new();
    let ghost all = hunks_view(hunks@);
    let mut i: usize = 0;
    while i < hunks.len()
        invariant
            i <= hunks@.len(),
            all == hunks_view(hunks@),
            out@ == patch_text(all.take(i as int)),
        decreases hunks@.len() - i,
    {
        proof {
            assert(all.take(i + 1).drop_last() == all.take(i as int));
        }
        if hunks[i].lines().len() > 0 {
            push_hunk(&mut out, &hunks[i]);
        }
        i += 1;
    }
    proof {
        assert(all.take(i as int) == all);
    }
    string_of(out.as_slice())
}

} // verus!
