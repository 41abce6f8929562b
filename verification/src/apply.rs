//! Turning the answers of a session into what is done to the files of the
//! modified tree.

use crate::changes::{ChangeKind, Changes, Kind};
use crate::hunk::{hunks_view, Hunk, HunkView};
use crate::patch::{apply, applied_text, PatchError};
use crate::paths::joined;
use crate::render::patch_text;
use crate::split::{joined_lines, lemma_split_joins, split_view};
use crate::vec_map::{flag_at, lemma_default_flag, VecMap};
use vstd::prelude::*;

verus! {

/// What is done to a file of the modified tree.
#[derive(Debug)]
pub enum FileOp {
    /// The file at `path` is written with `text`.
    Write { path: String, text: String },
    /// The file at `from` is copied to `to`.
    Copy { from: String, to: String },
    /// The file at `path` is deleted.
    Remove { path: String },
    /// Nothing is done.
    Keep,
}

/// The hunk without lines, which changes nothing.
pub open spec fn empty_hunk() -> HunkView {
    HunkView { old_start: 0, new_start: 0, lines: Seq::empty() }
}

/// The hunks `hunks` with every hunk that `row` does not accept replaced by
/// the hunk without lines.
pub open spec fn hollowed(hunks: Seq<HunkView>, row: Seq<bool>) -> Seq<HunkView> {
    Seq::new(
        hunks.len(),
        |i: int|
            if flag_at(row, i) {
                hunks[i]
            } else {
                empty_hunk()
            },
    )
}

/// The hunks `hunks` with every hunk that `row` does not accept replaced by
/// the hunk without lines, so that only accepted hunks change the text.
pub fn hollow(hunks: &Vec<Hunk>, row: &VecMap<bool>) -> (r: Vec<Hunk>)
    ensures
        hunks_view(r@) == hollowed(hunks_view(hunks@), row@),
{
    let mut r: Vec<Hunk> = Vec::new();
    let mut i: usize = 0;
    while i < hunks.len()
        invariant
            i <= hunks@.len(),
            r@.len() == i,
            forall|j: int|
                0 <= j < i ==> (#[trigger] r@[j])@ == if flag_at(row@, j) {
                    hunks@[j]@
                } else {
                    empty_hunk()
                },
        decreases hunks@.len() - i,
    {
        let accepted = row.get(i);
        proof {
            if i >= row@.len() {
                lemma_default_flag(accepted);
            }
        }
        if accepted {
            r.push(hunks[i].clone());
        } else {
            r.push(Hunk::empty());
        }
        i += 1;
    }
    proof {
        assert(hunks_view(r@) =~= hollowed(hunks_view(hunks@), row@));
    }
    r
}

/// A patch of which no hunk is accepted is written as the empty text, which
/// applies to every text and leaves it as it is.
pub proof fn lemma_all_rejected(hunks: Seq<HunkView>, row: Seq<bool>)
    requires
        forall|i: int| 0 <= i < hunks.len() ==> !flag_at(row, i),
    ensures
        patch_text(hollowed(hunks, row)).len() == 0,
    decreases hunks.len(),
{
    if hunks.len() > 0 {
        lemma_all_rejected(hunks.drop_last(), row);
        assert(hollowed(hunks, row).drop_last() == hollowed(hunks.drop_last(), row));
    }
}

/// A patch of which every hunk is accepted is applied as it is.
pub proof fn lemma_all_accepted(hunks: Seq<HunkView>, row: Seq<bool>)
    requires
        forall|i: int| 0 <= i < hunks.len() ==> flag_at(row, i),
    ensures
        hollowed(hunks, row) == hunks,
{
    assert(hollowed(hunks, row) =~= hunks);
}

/// Where a hunk is split and each of its pieces accepted, what is applied
/// are the lines of the hunk, whole and in their order: as much as where the
/// hunk itself is accepted.
pub proof fn lemma_split_then_accept(h: HunkView, row: Seq<bool>)
    requires
        forall|i: int| 0 <= i < split_view(h).len() ==> flag_at(row, i),
    ensures
        joined_lines(hollowed(split_view(h), row)) == h.lines,
        joined_lines(hollowed(seq![h], seq![true])) == h.lines,
{
    lemma_all_accepted(split_view(h), row);
    lemma_split_joins(h);
    lemma_all_accepted(seq![h], seq![true]);
    let one = seq![h];
    assert(one.drop_last().len() == 0);
    assert(joined_lines(one.drop_last()).len() == 0);
    assert(one.last() == h);
    assert(joined_lines(one) =~= h.lines);
}

/// What is done for `change` once the session has ended, where `patch`
/// holds the accepted hunks of the change, `original` is the text of its
/// file in the original tree, and `file_resolution` holds the answers.
///
/// A modified file is written with the text that the patch makes of
/// `original`. For a removed file the first answer decides: accepted, the
/// file stays away; rejected, it is copied back from the original tree. For
/// an added file likewise: accepted, it stays; rejected, it is deleted.
pub fn apply_change(
    changes: &Changes,
    change: &ChangeKind,
    original: &str,
    patch: &Vec<Hunk>,
    file_resolution: &VecMap<bool>,
) -> (r: Result<FileOp, PatchError>)
    ensures
        change@.kind == Kind::Modified ==> match applied_text(
            original@,
            patch_text(hunks_view(patch@)),
        ) {
            Some(text) => r matches Ok(FileOp::Write { path, text: t }) && path@ == joined(
                changes.modified_dir(),
                change@.path,
            ) && t@ == text,
            None => r is Err,
        },
        change@.kind == Kind::Removed ==> if flag_at(file_resolution@, 0) {
            r matches Ok(FileOp::Keep)
        } else {
            r matches Ok(FileOp::Copy { from, to }) && from@ == joined(
                changes.original_dir(),
                change@.path,
            ) && to@ == joined(changes.modified_dir(), change@.path)
        },
        change@.kind == Kind::Added ==> if flag_at(file_resolution@, 0) {
            r matches Ok(FileOp::Keep)
        } else {
            r matches Ok(FileOp::Remove { path }) && path@ == joined(
                changes.modified_dir(),
                change@.path,
            )
        },
{
    let accepted = file_resolution.get(0);
    proof {
        if file_resolution@.len() == 0 {
            lemma_default_flag(accepted);
        }
    }
    match change {
        ChangeKind::Modified(path) => {
            let text = apply(original, patch)?;
            Ok(FileOp::Write { path: changes.modified_path(path.as_str()), text })
        },
        ChangeKind::Removed(path) => {
            if accepted {
                Ok(FileOp::Keep)
            } else {
                Ok(
                    FileOp::Copy {
                        from: changes.original_path(path.as_str()),
                        to: changes.modified_path(path.as_str()),
                    },
                )
            }
        },
        ChangeKind::Added(path) => {
            if accepted {
                Ok(FileOp::Keep)
            } else {
                Ok(FileOp::Remove { path: changes.modified_path(path.as_str()) })
            }
        },
    }
}

} // verus!
