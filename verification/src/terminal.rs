//! The escape sequences that style the output and move the cursor.

use crate::text::decimal;
use vstd::prelude::*;

verus! {

/// The colours that the output uses.
#[derive(Clone, Copy, Debug, PartialEq, Eq, Structural)]
pub enum Tint {
    Red,
    Blue,
    White,
}

/// The number by which a sequence names the colour as a foreground.
pub open spec fn tint_code(tint: Tint) -> Seq<char> {
    match tint {
        Tint::Red => "31"@,
        Tint::Blue => "34"@,
        Tint::White => "37"@,
    }
}

/// The sequence that switches to bold text in the colour `tint`.
pub open spec fn bold_prefix(tint: Tint) -> Seq<char> {
    "\x1b[1;"@ + tint_code(tint) + "m"@
}

/// The sequence that switches back to plain text.
pub open spec fn reset() -> Seq<char> {
    "\x1b[0m"@
}

/// The sequence that moves the cursor to column `column` of row `row`, both
/// counted from one.
pub open spec fn goto_text(column: u16, row: u16) -> Seq<char> {
    "\x1b["@ + decimal(row as nat) + ";"@ + decimal(column as nat) + "H"@
}

/// The sequence that clears the whole screen.
pub open spec fn clear_all_text() -> Seq<char> {
    "\x1b[2J"@
}

/// The sequence that clears the screen from the cursor on.
pub open spec fn clear_after_text() -> Seq<char> {
    "\x1b[J"@
}

/// Calls `nu_ansi_term::Style::prefix` on the bold style with the
/// foreground `tint`.
///
/// Trusted: the prefix of a style is the escape character, `[`, the number
/// `1` for bold, a semicolon, the number of the foreground colour, and `m`.
#[verifier::external_body]
pub(crate) fn style_prefix(tint: Tint) -> (s: String)
    ensures
        s@ == bold_prefix(tint),
{
    let color = match tint {
        Tint::Red => nu_ansi_term::Color::Red,
        Tint::Blue => nu_ansi_term::Color::Blue,
        Tint::White => nu_ansi_term::Color::White,
    };
    nu_ansi_term::Style::new().fg(color).bold().prefix().to_string()
}

/// Calls `nu_ansi_term::Style::suffix` on the bold style with the
/// foreground `tint`.
///
/// Trusted: the suffix of a style that is not plain is the reset sequence.
#[verifier::external_body]
pub(crate) fn style_suffix(tint: Tint) -> (s: String)
    ensures
        s@ == reset(),
{
    let color = match tint {
        Tint::Red => nu_ansi_term::Color::Red,
        Tint::Blue => nu_ansi_term::Color::Blue,
        Tint::White => nu_ansi_term::Color::White,
    };
    nu_ansi_term::Style::new().fg(color).bold().suffix().to_string()
}

/// Calls `nu_ansi_term::Style::paint` on the bold style with the foreground
/// `tint`.
///
/// Trusted: a painted text is written as the prefix of its style, the text,
/// and the suffix of its style.
#[verifier::external_body]
pub(crate) fn paint(tint: Tint, text: &str) -> (s: String)
    ensures
        s@ == bold_prefix(tint) + text@ + reset(),
{
    let color = match tint {
        Tint::Red => nu_ansi_term::Color::Red,
        Tint::Blue => nu_ansi_term::Color::Blue,
        Tint::White => nu_ansi_term::Color::White,
    };
    nu_ansi_term::Style::new().fg(color).bold().paint(text).to_string()
}

/// Writes `termion::cursor::Goto` as text.
///
/// Trusted: it is written as the escape character, `[`, the row, a
/// semicolon, the column, and `H`. The position `(0, 0)` is left out: a
/// build that checks its assertions stops there.
#[verifier::external_body]
pub(crate) fn goto_sequence(column: u16, row: u16) -> (s: String)
    requires
        column != 0 || row != 0,
    ensures
        s@ == goto_text(column, row),
{
    termion::cursor::Goto(column, row).to_string()
}

/// Writes `termion::clear::All` as text.
///
/// Trusted: it is written as the escape character, `[`, and `2J`.
#[verifier::external_body]
pub(crate) fn clear_all_sequence() -> (s: String)
    ensures
        s@ == clear_all_text(),
{
    termion::clear::All.to_string()
}

/// Writes `termion::clear::AfterCursor` as text.
///
/// Trusted: it is written as the escape character, `[`, and `J`.
#[verifier::external_body]
pub(crate) fn clear_after_sequence() -> (s: String)
    ensures
        s@ == clear_after_text(),
{
    termion::clear::AfterCursor.to_string()
}

} // verus!
