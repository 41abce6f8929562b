//! The text that an external editor is given to change a hunk by hand, and
//! what is read back from it.

use crate::paths::{join, joined};
use crate::text::{chars_of, push_chars, push_str, string_of};
use vstd::prelude::*;

verus! {

/// The first line of the text: it says what the text is for.
pub open spec fn edit_header() -> Seq<char> {
    "# Manual hunk edit mode -- see bottom for a quick guide.\n"@
}

/// The last lines of the text: the guide.
pub open spec fn edit_trailer() -> Seq<char> {
    "# ---
# To remove '-' lines, make them ' ' lines (context).
# To remove '+' lines, delete them.
# Lines starting with # will be removed.
# If the patch applies cleanly, the edited hunk will immediately be marked for staging.
# If it does not apply cleanly, you will be given an opportunity to
# edit again.  If all lines of the hunk are removed, then the edit is
# aborted and the hunk is left unchanged.
"@
}

/// The text that the editor is given for the hunk written as `hunk`.
pub open spec fn edit_text(hunk: Seq<char>) -> Seq<char> {
    edit_header() + hunk + edit_trailer()
}

/// The text that the editor is given for the hunk written as `hunk`: the
/// hunk between two remarks, each line of which begins with `#`.
pub fn edit_message(hunk: &str) -> (s: String)
    ensures
        s@ == edit_text(hunk@),
{
    let mut out: Vec<char> = Vec::new();
    push_str(&mut out, "# Manual hunk edit mode -- see bottom for a quick guide.\n");
    push_str(&mut out, hunk);
    push_str(
        &mut out,
        "# ---
# To remove '-' lines, make them ' ' lines (context).
# To remove '+' lines, delete them.
# Lines starting with # will be removed.
# If the patch applies cleanly, the edited hunk will immediately be marked for staging.
# If it does not apply cleanly, you will be given an opportunity to
# edit again.  If all lines of the hunk are removed, then the edit is
# aborted and the hunk is left unchanged.
",
    );
    string_of(out.as_slice())
}

/// The length of the first line of `s`, its line feed counted.
pub open spec fn line_len(s: Seq<char>) -> int
    decreases s.len(),
{
    if s.len() == 0 {
        0
    } else if s[0] == '\n' {
        1
    } else {
        1 + line_len(s.drop_first())
    }
}

/// The text `s` without the lines that begin with `#`.
pub open spec fn without_comments(s: Seq<char>) -> Seq<char>
    decreases s.len(),
{
    if s.len() == 0 {
        Seq::empty()
    } else {
        let k = line_len(s);
        if 0 < k <= s.len() {
            if s[0] == '#' {
                without_comments(s.skip(k))
            } else {
                s.take(k) + without_comments(s.skip(k))
            }
        } else {
            s
        }
    }
}

/// The first line is `m` long where its line feed, or the end of the text,
/// stands at `m - 1`.
proof fn lemma_line_len(s: Seq<char>, m: int)
    requires
        0 < m <= s.len(),
        forall|i: int| 0 <= i < m - 1 ==> s[i] != '\n',
        s[m - 1] == '\n' || m == s.len(),
    ensures
        line_len(s) == m,
    decreases m,
{
    if m > 1 {
        assert(s[0] != '\n');
        assert forall|i: int| 0 <= i < m - 2 implies s.drop_first()[i] != '\n' by {
            assert(s.drop_first()[i] == s[i + 1]);
        }
        assert(s.drop_first()[m - 2] == s[m - 1]);
        lemma_line_len(s.drop_first(), m - 1);
    } else {
        if s[0] != '\n' {
            assert(s.drop_first().len() == 0);
            assert(line_len(s.drop_first()) == 0);
        }
    }
}

/// The text `text` without the lines that begin with `#`.
pub fn strip_comments(text: &str) -> (r: String)
    ensures
        r@ == without_comments(text@),
{
    let chars = chars_of(text);
    let mut out: Vec<char> = Vec::new();
    let mut start: usize = 0;
    proof {
        assert(chars@.skip(0) == chars@);
    }
    while start < chars.len()
        invariant
            start <= chars@.len(),
            chars@ == text@,
            without_comments(text@) == out@ + without_comments(chars@.skip(start as int)),
        decreases chars@.len() - start,
    {
        let mut end: usize = start;
        while end < chars.len() && chars[end] != '\n'
            invariant
                start <= end <= chars@.len(),
                forall|i: int| start <= i < end ==> chars@[i] != '\n',
            decreases chars@.len() - end,
        {
            end += 1;
        }
        if end < chars.len() {
            end += 1;
        }
        let ghost rest = chars@.skip(start as int);
        proof {
            lemma_line_len(rest, end - start);
            assert(rest.skip(end - start) == chars@.skip(end as int));
            assert(rest.take(end - start) == chars@.subrange(start as int, end as int));
        }
        if chars[start] != '#' {
            let ghost before = out@;
            push_chars(&mut out, vstd::slice::slice_subrange(chars.as_slice(), start, end));
            proof {
                assert(before + (rest.take(end - start) + without_comments(
                    chars@.skip(end as int),
                )) == out@ + without_comments(chars@.skip(end as int)));
            }
        }
        start = end;
    }
    proof {
        assert(out@ + Seq::<char>::empty() == out@);
    }
    string_of(out.as_slice())
}

/// A directory above the working directory, and whether it holds the
/// metadata of a version-control tool.
pub struct Ancestor {
    pub dir: String,
    pub has_jj: bool,
    pub has_git: bool,
}

/// The directory of metadata in the first of `dirs` that holds one, `.jj`
/// before `.git`; `temp` where none does.
pub open spec fn edit_dir(dirs: Seq<Ancestor>, temp: Seq<char>) -> Seq<char>
    decreases dirs.len(),
{
    if dirs.len() == 0 {
        temp
    } else if dirs[0].has_jj {
        joined(dirs[0].dir@, ".jj"@)
    } else if dirs[0].has_git {
        joined(dirs[0].dir@, ".git"@)
    } else {
        edit_dir(dirs.drop_first(), temp)
    }
}

/// The file in which a hunk is edited: in the nearest directory of
/// version-control metadata, looking from the working directory upwards
/// through `dirs`, or in `temp` where there is none.
pub fn hunk_edit_path(dirs: &Vec<Ancestor>, temp: &str) -> (r: String)
    ensures
        r@ == joined(edit_dir(dirs@, temp@), "addp-hunk-edit.diff"@),
{
    let mut i: usize = 0;
    proof {
        assert(dirs@.skip(0) == dirs@);
    }
    while i < dirs.len()
        invariant
            i <= dirs@.len(),
            edit_dir(dirs@, temp@) == edit_dir(dirs@.skip(i as int), temp@),
        decreases dirs@.len() - i,
    {
        proof {
            assert(dirs@.skip(i as int).drop_first() == dirs@.skip(i + 1));
        }
        if dirs[i].has_jj {
            let dir = join(dirs[i].dir.as_str(), ".jj");
            return join(dir.as_str(), "addp-hunk-edit.diff");
        }
        if dirs[i].has_git {
            let dir = join(dirs[i].dir.as_str(), ".git");
            return join(dir.as_str(), "addp-hunk-edit.diff");
        }
        i += 1;
    }
    join(temp, "addp-hunk-edit.diff")
}

} // verus!
