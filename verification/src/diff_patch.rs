//! The session in which the user goes through the hunks of all changes and
//! accepts or rejects each: the cursor, the answers, and what each answer
//! does.

use crate::changes::Kind;
use crate::config::{Interface, Options};
use crate::count_lines::{account, CountLines};
use crate::hunk::{reverse_if, Hunk, HunkView};
use crate::patch::{colored_text, colorize};
use crate::render::{hunk_text, hunk_to_text};
use crate::terminal::{
    bold_prefix, clear_after_sequence, clear_after_text, clear_all_sequence, clear_all_text,
    goto_sequence, goto_text, paint, reset, style_prefix, style_suffix, Tint,
};
use crate::text::{chars_of, decimal, push_decimal, push_str, string_of};
use vstd::prelude::*;
use vstd::string::StringSliceAdditionalSpecFns;

verus! {

/// The hunk index that stands for the last hunk of a change whose hunks are
/// not counted yet.
pub const STEP_HUNK_LAST: usize = usize::MAX;

/// The cursor of a session: a change, and a hunk of it.
#[derive(Clone, Copy, Debug, PartialEq, Eq, Structural)]
pub struct Step {
    pub change: usize,
    pub hunk: usize,
}

impl Step {
    /// The cursor of a session that has ended, which points at nothing.
    pub fn invalid() -> (s: Step)
        ensures
            s.change == usize::MAX,
            s.hunk == usize::MAX,
    {
        Step { change: usize::MAX, hunk: usize::MAX }
    }
}

impl Default for Step {
    fn default() -> (s: Step)
        ensures
            s.change == 0,
            s.hunk == 0,
    {
        Step { change: 0, hunk: 0 }
    }
}

/// What the user asks for.
#[derive(Clone, Copy, Debug, PartialEq, Eq, Structural)]
pub enum Action {
    /// Accept the hunk.
    HunkYes,
    /// Reject the hunk.
    HunkNo,
    /// Accept every hunk of the file.
    FileYes,
    /// Reject every hunk of the file.
    FileNo,
    /// Split the hunk.
    Split,
    /// Edit the hunk by hand.
    Edit,
    /// End the session and apply what was accepted.
    Quit,
    /// Go back one hunk.
    Prev,
    /// Go on to the next hunk.
    Next,
    /// Clear the screen.
    Clear,
    /// Leave at once, applying nothing.
    Exit,
    /// Nothing at all.
    Ignore,
}

/// A key of the keyboard, as far as a session tells keys apart.
#[derive(Clone, Copy, Debug, PartialEq, Eq, Structural)]
pub enum Key {
    /// A character.
    Char(char),
    /// A character with the control key held.
    Ctrl(char),
    Left,
    Up,
    Right,
    Down,
    /// Any other key.
    Other,
}

/// What the character `c` asks for.
pub open spec fn char_action(c: char) -> Option<Action> {
    if c == 'y' {
        Some(Action::HunkYes)
    } else if c == 'n' {
        Some(Action::HunkNo)
    } else if c == 'a' {
        Some(Action::FileYes)
    } else if c == 'd' {
        Some(Action::FileNo)
    } else if c == 's' {
        Some(Action::Split)
    } else if c == 'e' {
        Some(Action::Edit)
    } else if c == 'q' {
        Some(Action::Quit)
    } else if c == 'l' {
        Some(Action::Clear)
    } else {
        None
    }
}

/// What the line `s` asks for: an arrow key as the terminal sends it, or a
/// single character.
pub open spec fn line_action(s: Seq<char>) -> Option<Action> {
    if s == seq!['\x1b', '[', 'D'] || s == seq!['\x1b', '[', 'A'] {
        Some(Action::Prev)
    } else if s == seq!['\x1b', '[', 'C'] || s == seq!['\x1b', '[', 'B'] {
        Some(Action::Next)
    } else if s.len() == 1 {
        char_action(s[0])
    } else {
        None
    }
}

/// What the key `key` asks for; `None` for a key that is passed over.
pub open spec fn key_action(key: Key) -> Option<Action> {
    match key {
        Key::Char(c) => char_action(c),
        Key::Ctrl(c) => if c == 'c' {
            Some(Action::Exit)
        } else if c == 'l' {
            Some(Action::Clear)
        } else {
            None
        },
        Key::Left | Key::Up => Some(Action::Prev),
        Key::Right | Key::Down => Some(Action::Next),
        Key::Other => None,
    }
}

impl Action {
    /// What the character `c` asks for.
    pub fn from_char(c: char) -> (r: Option<Action>)
        ensures
            r == char_action(c),
    {
        if c == 'y' {
            Some(Action::HunkYes)
        } else if c == 'n' {
            Some(Action::HunkNo)
        } else if c == 'a' {
            Some(Action::FileYes)
        } else if c == 'd' {
            Some(Action::FileNo)
        } else if c == 's' {
            Some(Action::Split)
        } else if c == 'e' {
            Some(Action::Edit)
        } else if c == 'q' {
            Some(Action::Quit)
        } else if c == 'l' {
            Some(Action::Clear)
        } else {
            None
        }
    }

    /// What the line `s` asks for, the line feed at its end taken off.
    pub fn from_str(s: &str) -> (r: Option<Action>)
        ensures
            r == line_action(s@),
    {
        let chars = chars_of(s);
        if chars.len() == 3 && chars[0] == '\x1b' && chars[1] == '[' {
            proof {
                assert(chars@ =~= seq![chars@[0], chars@[1], chars@[2]]);
            }
            if chars[2] == 'D' || chars[2] == 'A' {
                return Some(Action::Prev);
            }
            if chars[2] == 'C' || chars[2] == 'B' {
                return Some(Action::Next);
            }
            return None;
        }
        if chars.len() == 1 {
            return Action::from_char(chars[0]);
        }
        proof {
            if chars@.len() == 3 {
                assert(seq!['\x1b', '[', 'D'][0] == '\x1b' && seq!['\x1b', '[', 'D'][1] == '[');
                assert(seq!['\x1b', '[', 'A'][0] == '\x1b' && seq!['\x1b', '[', 'A'][1] == '[');
                assert(seq!['\x1b', '[', 'C'][0] == '\x1b' && seq!['\x1b', '[', 'C'][1] == '[');
                assert(seq!['\x1b', '[', 'B'][0] == '\x1b' && seq!['\x1b', '[', 'B'][1] == '[');
            }
        }
        None
    }

    /// What the key `key` asks for; `None` for a key that is passed over.
    pub fn from_key(key: Key) -> (r: Option<Action>)
        ensures
            r == key_action(key),
    {
        match key {
            Key::Char(c) => Action::from_char(c),
            Key::Ctrl(c) => if c == 'c' {
                Some(Action::Exit)
            } else if c == 'l' {
                Some(Action::Clear)
            } else {
                None
            },
            Key::Left | Key::Up => Some(Action::Prev),
            Key::Right | Key::Down => Some(Action::Next),
            Key::Other => None,
        }
    }
}

/// The heading of a change: the path of the file as the original and as
/// the modified one, in bold white.
pub open spec fn header_text(original: Option<Seq<char>>, modified: Option<Seq<char>>) -> Seq<
    char,
> {
    bold_prefix(Tint::White) + match original {
        Some(p) => "--- "@ + p + "\n"@,
        None => Seq::empty(),
    } + match modified {
        Some(p) => "+++ "@ + p + "\n"@,
        None => Seq::empty(),
    } + reset()
}

/// The heading of a change.
pub fn write_header(original: Option<&str>, modified: Option<&str>) -> (s: String)
    ensures
        s@ == header_text(
            match original {
                Some(p) => Some(p@),
                None => None,
            },
            match modified {
                Some(p) => Some(p@),
                None => None,
            },
        ),
{
    let mut out: Vec<char> = Vec::new();
    let prefix = style_prefix(Tint::White);
    push_str(&mut out, prefix.as_str());
    let ghost head = out@;
    match original {
        Some(p) => {
            push_str(&mut out, "--- ");
            push_str(&mut out, p);
            push_str(&mut out, "\n");
            proof {
                assert(out@ == head + ("--- "@ + p@ + "\n"@));
            }
        },
        None => {
            proof {
                assert(out@ == head + Seq::<char>::empty());
            }
        },
    }
    let ghost mid = out@;
    match modified {
        Some(p) => {
            push_str(&mut out, "+++ ");
            push_str(&mut out, p);
            push_str(&mut out, "\n");
            proof {
                assert(out@ == mid + ("+++ "@ + p@ + "\n"@));
            }
        },
        None => {
            proof {
                assert(out@ == mid + Seq::<char>::empty());
            }
        },
    }
    let suffix = style_suffix(Tint::White);
    push_str(&mut out, suffix.as_str());
    string_of(out.as_slice())
}

/// The longest text, in bytes, whose rows are counted.
pub const MAX_COUNTED: usize = usize::MAX - 0x10000;

/// The rows that `bytes` fill on a terminal of `width` columns, cut to 16
/// bits.
pub open spec fn rows(bytes: Seq<u8>, width: u16) -> int {
    account(0, 0, bytes, width as int).0 % 0x10000
}

/// The rows that `text` fills on a terminal of `width` columns; `None` for
/// a terminal without columns, and for a text too long to be counted.
pub fn rows_of(text: &str, width: u16) -> (r: Option<u16>)
    ensures
        r is Some <==> width > 0 && text.spec_bytes().len() <= MAX_COUNTED,
        r matches Some(n) ==> n == rows(text.spec_bytes(), width),
{
    let bytes = text.as_bytes();
    if width == 0 || bytes.len() > MAX_COUNTED {
        return None;
    }
    let mut counter = CountLines::new(width);
    counter.write(bytes);
    Some(counter.take_lineno())
}

/// What the user is asked about a change of kind `kind`.
pub open spec fn noun(kind: Kind) -> Seq<char> {
    match kind {
        Kind::Modified => "this hunk"@,
        Kind::Removed => "deletion"@,
        Kind::Added => "addition"@,
    }
}

/// The question for hunk `number` of `total`, of a change of kind `kind`.
pub open spec fn question(number: nat, total: nat, kind: Kind) -> Seq<char> {
    "("@ + decimal(number) + "/"@ + decimal(total) + ") Stage "@ + noun(kind)
        + " [y,n,q,a,d,e]? "@
}

/// The state of the screen: the options, and the rows that were written
/// for the heading and for the hunk and are not erased yet.
#[derive(Debug)]
pub struct DiffPatch {
    pub options: Options,
    pub uncleared_lines: (u16, u16),
    pub raw: bool,
}

impl DiffPatch {
    /// The screen of a session with the options `options`. Without a
    /// terminal to write to, answers are read as lines and nothing is
    /// erased. The terminal is needed in its raw mode where one keystroke is
    /// an answer or the screen is erased.
    pub fn new(options: Options, is_tty: bool) -> (d: DiffPatch)
        ensures
            d.options.context_len == options.context_len,
            d.options.reversed == options.reversed,
            d.options.jj_subcommand == options.jj_subcommand,
            d.options.immediate_command == (is_tty && options.immediate_command),
            d.options.interface == if is_tty {
                options.interface
            } else {
                Interface::Direct
            },
            d.raw == (d.options.immediate_command || d.options.interface
                == Interface::InlineClear),
            d.uncleared_lines == (0u16, 0u16),
    {
        let mut options = options;
        if !is_tty {
            options.immediate_command = false;
            options.interface = Interface::Direct;
        }
        let raw = options.immediate_command || options.clear_after_hunk();
        DiffPatch { options, uncleared_lines: (0, 0), raw }
    }

    /// The size of the terminal in columns and rows: as measured, where
    /// the terminal is used in its raw mode and could be measured; without
    /// bounds else.
    pub fn term_size(&self, measured: Option<(u16, u16)>) -> (r: (u16, u16))
        ensures
            r == if self.raw && measured is Some {
                measured->0
            } else {
                (u16::MAX, u16::MAX)
            },
    {
        match measured {
            Some(size) => if self.raw {
                size
            } else {
                (u16::MAX, u16::MAX)
            },
            None => (u16::MAX, u16::MAX),
        }
    }

    /// The hunk `hunk` as it is shown: as its reverse where the options say
    /// so, as unified-diff text, in colour.
    pub open spec fn hunk_shown(&self, hunk: HunkView) -> Seq<char> {
        let plain = hunk_text(
            if self.options.reversed {
                hunk.reversed()
            } else {
                hunk
            },
        );
        match colored_text(plain) {
            Some(c) => c,
            None => plain,
        }
    }

    /// The text `head`, followed by the text `body`, as they are written
    /// to a terminal of `width` columns. The rows that each of the two
    /// fills are kept, to be erased later; the rows kept for a text that is
    /// not there stay as they were. `None`, and nothing kept, where the
    /// rows cannot be counted: the terminal has no columns, or a text is
    /// longer than can be counted.
    pub fn record(&mut self, head: Option<&str>, body: Option<&str>, width: u16) -> (r: Option<
        String,
    >)
        requires
            head is Some && old(self).options.interface == Interface::InlineClear ==> old(self).uncleared_lines.0 == 0,
            body is Some && old(self).options.interface == Interface::InlineClear ==> old(self).uncleared_lines.1 == 0,
        ensures
            final(self).options == old(self).options,
            final(self).raw == old(self).raw,
            r is Some <==> width > 0 && (head matches Some(t) ==> t.spec_bytes().len()
                <= MAX_COUNTED) && (body matches Some(t) ==> t.spec_bytes().len() <= MAX_COUNTED),
            r is None ==> final(self).uncleared_lines == old(self).uncleared_lines,
            r matches Some(s) ==> {
                &&& s@ == match head {
                    Some(t) => t@,
                    None => Seq::<char>::empty(),
                } + match body {
                    Some(t) => t@,
                    None => Seq::<char>::empty(),
                }
                &&& final(self).uncleared_lines.0 == match head {
                    Some(t) => rows(t.spec_bytes(), width),
                    None => old(self).uncleared_lines.0 as int,
                }
                &&& final(self).uncleared_lines.1 == match body {
                    Some(t) => rows(t.spec_bytes(), width),
                    None => old(self).uncleared_lines.1 as int,
                }
            },
    {
        let mut out: Vec<char> = Vec::new();
        let mut head_rows = self.uncleared_lines.0;
        let mut body_rows = self.uncleared_lines.1;
        if width == 0 {
            return None;
        }
        match head {
            Some(t) => {
                match rows_of(t, width) {
                    Some(n) => {
                        head_rows = n;
                    },
                    None => {
                        return None;
                    },
                }
                push_str(&mut out, t);
            },
            None => {},
        }
        let ghost first = out@;
        match body {
            Some(t) => {
                match rows_of(t, width) {
                    Some(n) => {
                        body_rows = n;
                    },
                    None => {
                        return None;
                    },
                }
                push_str(&mut out, t);
            },
            None => {
                proof {
                    assert(out@ == first + Seq::<char>::empty());
                }
            },
        }
        self.uncleared_lines = (head_rows, body_rows);
        Some(string_of(out.as_slice()))
    }

    /// The text to write for the change at `path`: its heading, where
    /// `show_header` is set, and `hunk`, where there is one, as it is
    /// shown. The rows that each of the two fills on a terminal of `width`
    /// columns are kept, to be erased later. `None`, and nothing kept,
    /// where the rows cannot be counted: the terminal has no columns, or
    /// one of the two texts is longer than can be counted.
    pub fn step(&mut self, show_header: bool, path: &str, hunk: Option<&Hunk>, width: u16) -> (r:
        Option<String>)
        requires
            show_header && old(self).options.interface == Interface::InlineClear ==> old(self).uncleared_lines.0 == 0,
            hunk is Some && old(self).options.interface == Interface::InlineClear ==> old(self).uncleared_lines.1 == 0,
        ensures
            final(self).options == old(self).options,
            final(self).raw == old(self).raw,
            r is Some <==> width > 0 && (show_header ==> vstd::utf8::encode_utf8(
                header_text(Some(path@), Some(path@)),
            ).len() <= MAX_COUNTED) && (hunk matches Some(h) ==> vstd::utf8::encode_utf8(
                old(self).hunk_shown(h@),
            ).len() <= MAX_COUNTED),
            r is None ==> final(self).uncleared_lines == old(self).uncleared_lines,
            r matches Some(s) ==> {
                let head = if show_header {
                    header_text(Some(path@), Some(path@))
                } else {
                    Seq::<char>::empty()
                };
                let body = match hunk {
                    Some(h) => old(self).hunk_shown(h@),
                    None => Seq::<char>::empty(),
                };
                &&& s@ == head + body
                &&& width > 0
                &&& final(self).uncleared_lines.0 == if show_header {
                    rows(vstd::utf8::encode_utf8(head), width)
                } else {
                    old(self).uncleared_lines.0 as int
                }
                &&& final(self).uncleared_lines.1 == if hunk is Some {
                    rows(vstd::utf8::encode_utf8(body), width)
                } else {
                    old(self).uncleared_lines.1 as int
                }
            },
    {
        let header = if show_header {
            Some(write_header(Some(path), Some(path)))
        } else {
            None
        };
        let shown = match hunk {
            Some(h) => {
                let display = reverse_if(h, self.options.reversed);
                let plain = hunk_to_text(&display);
                Some(colorize(plain.as_str()))
            },
            None => None,
        };
        self.record(
            match &header {
                Some(t) => Some(t.as_str()),
                None => None,
            },
            match &shown {
                Some(t) => Some(t.as_str()),
                None => None,
            },
            width,
        )
    }

    /// The text that asks the user about hunk `number` of `total`, of a
    /// change of kind `kind`: the question in bold blue.
    pub fn ask_action(number: usize, total: usize, kind: Kind) -> (s: String)
        ensures
            s@ == bold_prefix(Tint::Blue) + question(number as nat, total as nat, kind) + reset(),
    {
        let mut out: Vec<char> = Vec::new();
        push_str(&mut out, "(");
        push_decimal(&mut out, number);
        push_str(&mut out, "/");
        push_decimal(&mut out, total);
        push_str(&mut out, ") Stage ");
        match kind {
            Kind::Modified => push_str(&mut out, "this hunk"),
            Kind::Removed => push_str(&mut out, "deletion"),
            Kind::Added => push_str(&mut out, "addition"),
        }
        push_str(&mut out, " [y,n,q,a,d,e]? ");
        let msg = string_of(out.as_slice());
        paint(Tint::Blue, msg.as_str())
    }

    /// The text that tells the user of an error: the message in bold red,
    /// and a line feed.
    pub fn write_error(msg: &str) -> (s: String)
        ensures
            s@ == bold_prefix(Tint::Red) + msg@ + reset() + "\n"@,
    {
        let mut out: Vec<char> = Vec::new();
        let painted = paint(Tint::Red, msg);
        push_str(&mut out, painted.as_str());
        push_str(&mut out, "\n");
        string_of(out.as_slice())
    }

    /// The text that clears the screen and puts the cursor at its top.
    pub fn clear_all() -> (s: String)
        ensures
            s@ == clear_all_text() + goto_text(1, 1),
    {
        let mut out: Vec<char> = Vec::new();
        let clear = clear_all_sequence();
        push_str(&mut out, clear.as_str());
        let home = goto_sequence(1, 1);
        push_str(&mut out, home.as_str());
        string_of(out.as_slice())
    }

    /// The number of rows to erase after an answer, where the screen is
    /// cleared after each hunk: those of the hunk, the row of the question
    /// and, where `clear_header` is set, those of the heading. The rows
    /// that are to be erased are kept no longer. `None`, and nothing
    /// changed, where the screen is not cleared.
    pub fn clear(&mut self, clear_header: bool) -> (r: Option<u32>)
        ensures
            final(self).options == old(self).options,
            final(self).raw == old(self).raw,
            old(self).options.interface != Interface::InlineClear ==> r is None && final(self).uncleared_lines == old(self).uncleared_lines,
            old(self).options.interface == Interface::InlineClear ==> {
                &&& r == Some(
                    (old(self).uncleared_lines.1 + 1 + if clear_header {
                        old(self).uncleared_lines.0 as int
                    } else {
                        0
                    }) as u32,
                )
                &&& final(self).uncleared_lines.1 == 0
                &&& final(self).uncleared_lines.0 == if clear_header {
                    0
                } else {
                    old(self).uncleared_lines.0
                }
            },
    {
        if !self.options.clear_after_hunk() {
            return None;
        }
        let (head, hunk) = self.uncleared_lines;
        let mut erase: u32 = hunk as u32 + 1;
        if clear_header {
            erase = erase + head as u32;
            self.uncleared_lines = (0, 0);
        } else {
            self.uncleared_lines = (head, 0);
        }
        Some(erase)
    }

    /// The row from which the screen is erased, when the cursor stands in
    /// row `row` and `n` rows are to go: `n` rows up, but not past the top.
    pub open spec fn erase_from(row: u16, n: u32) -> u16 {
        if n >= row {
            0
        } else {
            (row - n) as u16
        }
    }

    /// The text that erases the last `n` rows above the cursor, which
    /// stands in row `row`: it moves the cursor up to the first of them and
    /// clears the screen from there on.
    pub fn erase_last_lines(row: u16, n: u32) -> (s: String)
        ensures
            s@ == goto_text(1, Self::erase_from(row, n)) + clear_after_text(),
    {
        let target: u16 = if n >= row as u32 {
            0
        } else {
            row - n as u16
        };
        let mut out: Vec<char> = Vec::new();
        let go = goto_sequence(1, target);
        push_str(&mut out, go.as_str());
        let clear = clear_after_sequence();
        push_str(&mut out, clear.as_str());
        string_of(out.as_slice())
    }
}

} // verus!
