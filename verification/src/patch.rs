//! Patches between two texts: an ordered sequence of hunks, made by the diff
//! engine, and applied to a text by it.

use crate::hunk::{all_fit, hunks_of, hunks_view, raw_view, Hunk, HunkView, Line, RawHunk};
use crate::render::{patch_text, patch_to_text};
use vstd::prelude::*;

verus! {

/// The error of the diff engine's patch reader.
#[verifier::external_type_specification]
#[verifier::external_body]
pub struct ExParsePatchError(diffy::ParsePatchError);

/// The error of the diff engine when a hunk finds no place in the text.
#[verifier::external_type_specification]
#[verifier::external_body]
pub struct ExApplyError(diffy::ApplyError);

/// The hunks that the diff engine finds between `original` and `modified`,
/// with up to `context_len` unchanged lines around each change.
pub uninterp spec fn diff_hunks(original: Seq<char>, modified: Seq<char>, context_len: nat) -> Seq<
    HunkView,
>;

/// The hunks that the diff engine reads from the unified-diff text `text`,
/// or `None` where it rejects the text.
pub uninterp spec fn parsed_hunks(text: Seq<char>) -> Option<Seq<HunkView>>;

/// The text that the diff engine makes of `base` with the patch that it reads
/// from the unified-diff text `patch`; `None` where it rejects the patch or
/// finds no place for one of its hunks.
pub uninterp spec fn applied_text(base: Seq<char>, patch: Seq<char>) -> Option<Seq<char>>;

/// The unified-diff text `text` as the diff engine writes it in colour, or
/// `None` where it rejects the text.
pub uninterp spec fn colored_text(text: Seq<char>) -> Option<Seq<char>>;

/// Why a patch could not be used.
#[derive(Debug)]
pub enum PatchError {
    /// The text is no patch; the message says where it fails.
    Parse(String),
    /// A hunk matches nowhere in the text; the message names the hunk.
    Apply(String),
}

/// Calls `diffy::DiffOptions::create_patch` with the context length set and
/// copies the hunks of the patch.
///
/// Trusted: the hunks are a function of the two texts and the context
/// length; the ranges of every hunk that the engine builds end within the
/// texts, so within `usize`; and two equal texts differ nowhere, so the
/// patch between them has no hunks.
#[verifier::external_body]
fn create_hunks(original: &str, modified: &str, context_len: usize) -> (hunks: Vec<RawHunk>)
    ensures
        raw_view(hunks@) == diff_hunks(original@, modified@, context_len as nat),
        all_fit(raw_view(hunks@)),
        original@ == modified@ ==> hunks@.len() == 0,
{
    let mut options = diffy::DiffOptions::new();
    options.set_context_len(context_len);
    let patch = options.create_patch(original, modified);
    patch.hunks().iter().map(|h| {
        let lines = h.lines().iter().map(|l| match *l {
            diffy::Line::Context(t) => Line::context(t),
            diffy::Line::Delete(t) => Line::delete(t),
            diffy::Line::Insert(t) => Line::insert(t),
        }).collect();
        RawHunk { old_start: h.old_range().start(), new_start: h.new_range().start(), lines }
    }).collect()
}

/// The hunks that the reader gave, as values of the model.
pub open spec fn read_view(r: Result<Vec<RawHunk>, diffy::ParsePatchError>) -> Option<
    Seq<HunkView>,
> {
    match r {
        Ok(hunks) => Some(raw_view(hunks@)),
        Err(_) => None,
    }
}

/// Whether the ranges of the hunks that the reader gave end within `usize`.
pub open spec fn read_fits(r: Result<Vec<RawHunk>, diffy::ParsePatchError>) -> bool {
    r matches Ok(hunks) ==> all_fit(raw_view(hunks@))
}

/// The text that applying gave, where it gave one.
pub open spec fn outcome_text(
    r: Result<Result<String, diffy::ApplyError>, diffy::ParsePatchError>,
) -> Option<Seq<char>> {
    match r {
        Ok(Ok(s)) => Some(s@),
        _ => None,
    }
}

/// Calls `diffy::Patch::from_str` and copies the hunks of the patch.
///
/// Trusted: whether the text is accepted, and the hunks read from it, are a
/// function of the text; the reader accepts a hunk only where both of its
/// ranges end within `usize`.
#[verifier::external_body]
fn read_hunks(text: &str) -> (r: Result<Vec<RawHunk>, diffy::ParsePatchError>)
    ensures
        read_view(r) == parsed_hunks(text@),
        read_fits(r),
{
    let patch = diffy::Patch::from_str(text)?;
    Ok(patch.hunks().iter().map(|h| {
        let lines = h.lines().iter().map(|l| match *l {
            diffy::Line::Context(t) => Line::context(t),
            diffy::Line::Delete(t) => Line::delete(t),
            diffy::Line::Insert(t) => Line::insert(t),
        }).collect();
        RawHunk { old_start: h.old_range().start(), new_start: h.new_range().start(), lines }
    }).collect())
}

/// Calls `diffy::Patch::from_str` on `patch` and `diffy::apply` with what it
/// read.
///
/// Trusted: the outcome is a function of the two texts; and the empty text
/// reads as a patch without hunks, which leaves every line of `base` as it
/// is.
#[verifier::external_body]
fn apply_text(base: &str, patch: &str) -> (r: Result<Result<String, diffy::ApplyError>, diffy::ParsePatchError>)
    ensures
        outcome_text(r) == applied_text(base@, patch@),
        patch@.len() == 0 ==> outcome_text(r) == Some(base@),
{
    diffy::Patch::from_str(patch).map(|p| diffy::apply(base, &p))
}

/// The text that colouring gave, where it gave one.
pub open spec fn colored_view(r: Result<String, diffy::ParsePatchError>) -> Option<Seq<char>> {
    match r {
        Ok(s) => Some(s@),
        Err(_) => None,
    }
}

/// Calls `diffy::Patch::from_str` on `text` and writes what it read with
/// `diffy::PatchFormatter::fmt_patch`, colours switched on.
///
/// Trusted: the outcome is a function of the text.
#[verifier::external_body]
fn color_text(text: &str) -> (r: Result<String, diffy::ParsePatchError>)
    ensures
        colored_view(r) == colored_text(text@),
{
    let patch = diffy::Patch::from_str(text)?;
    let formatter = diffy::PatchFormatter::new().with_color();
    let colored = formatter.fmt_patch(&patch).to_string();
    Ok(colored)
}

/// The message of a reader's error, from its `Display`.
#[verifier::external_body]
fn parse_error_message(e: &diffy::ParsePatchError) -> String {
    e.to_string()
}

/// The message of an error of `diffy::apply`, from its `Display`.
#[verifier::external_body]
fn apply_error_message(e: &diffy::ApplyError) -> String {
    e.to_string()
}

/// The hunks between `original` and `modified`, each with up to
/// `context_len` unchanged lines around its changes. Equal texts give no
/// hunks.
pub fn build(original: &str, modified: &str, context_len: usize) -> (hunks: Vec<Hunk>)
    ensures
        hunks_view(hunks@) == diff_hunks(original@, modified@, context_len as nat),
        original@ == modified@ ==> hunks@.len() == 0,
{
    let raw = create_hunks(original, modified, context_len);
    let hunks = hunks_of(&raw);
    proof {
        assert(hunks_view(hunks@).len() == raw_view(raw@).len());
    }
    hunks
}

/// The hunks written in the unified-diff text `text`.
pub fn parse(text: &str) -> (r: Result<Vec<Hunk>, PatchError>)
    ensures
        match r {
            Ok(hunks) => parsed_hunks(text@) == Some(hunks_view(hunks@)),
            Err(e) => parsed_hunks(text@) is None && e is Parse,
        },
{
    match read_hunks(text) {
        Ok(raw) => Ok(hunks_of(&raw)),
        Err(e) => Err(PatchError::Parse(parse_error_message(&e))),
    }
}

/// The unified-diff text `text` in colour, as it is shown; `text` itself
/// where it cannot be read as a patch.
pub fn colorize(text: &str) -> (r: String)
    ensures
        r@ == match colored_text(text@) {
            Some(c) => c,
            None => text@,
        },
{
    match color_text(text) {
        Ok(s) => s,
        Err(_) => text.to_owned(),
    }
}

/// The text that `hunks` make of `original`. Hunks without lines change
/// nothing; a patch that holds no other hunks gives `original` back.
pub fn apply(original: &str, hunks: &Vec<Hunk>) -> (r: Result<String, PatchError>)
    ensures
        match r {
            Ok(s) => applied_text(original@, patch_text(hunks_view(hunks@))) == Some(s@),
            Err(_) => applied_text(original@, patch_text(hunks_view(hunks@))) is None,
        },
        patch_text(hunks_view(hunks@)).len() == 0 ==> (r matches Ok(s) && s@ == original@),
{
    let text = patch_to_text(hunks);
    match apply_text(original, text.as_str()) {
        Ok(Ok(s)) => Ok(s),
        Ok(Err(e)) => Err(PatchError::Apply(apply_error_message(&e))),
        Err(e) => Err(PatchError::Parse(parse_error_message(&e))),
    }
}

} // verus!
