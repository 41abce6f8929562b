//! The state of a session: the changes with their patches, the answers given
//! so far, and the cursor; and how each action of the user changes them.

use crate::apply::{apply_change, hollow, hollowed, FileOp};
use crate::changes::{Changes, Kind};
use crate::diff_patch::{Action, Step, STEP_HUNK_LAST};
use crate::editor::{edit_message, edit_text, strip_comments, without_comments};
use crate::hunk::{hunks_view, reverse_if, Hunk, HunkView};
use crate::patch::{apply, applied_text, parse, parsed_hunks, PatchError};
use crate::render::{hunk_text, hunk_to_text, patch_text};
use crate::split::{can_split, cuts, split_hunk_at, split_view};
use crate::text::{push_str, string_of};
use crate::vec_map::{flag_at, VecMap};
use vstd::prelude::*;

verus! {

/// The number of answers that a patch of `n` hunks takes: one for each hunk,
/// and one for a patch without hunks.
pub open spec fn slots(n: nat) -> nat {
    if n == 0 {
        1
    } else {
        n
    }
}

/// The number of answers that decide over a change of kind `kind` with `n`
/// hunks: one for a file that was added or removed, whatever its hunks; for
/// a modified file one for each hunk, and one where it has none.
pub open spec fn logical_count(kind: Kind, n: nat) -> nat {
    if kind == Kind::Modified {
        slots(n)
    } else {
        1
    }
}

/// The index of the last of `n` hunks, or zero where there are none.
pub open spec fn last_index(n: nat) -> nat {
    if n == 0 {
        0
    } else {
        (n - 1) as nat
    }
}

/// The cursor `step` with the mark for the last hunk replaced by the index
/// of the last of `n_hunks` hunks.
pub open spec fn settled(step: Step, n_hunks: nat) -> Step {
    if step.hunk == STEP_HUNK_LAST {
        Step { change: step.change, hunk: last_index(n_hunks) as usize }
    } else {
        step
    }
}

/// The cursor that has ended the session.
pub open spec fn ended() -> Step {
    Step { change: usize::MAX, hunk: usize::MAX }
}

/// Where `action` moves the cursor `step`, in a session of `n_changes`
/// changes and at a change of `n_hunks` hunks, before it is seen whether
/// the cursor has left the change.
pub open spec fn moved(step: Step, action: Action, n_changes: nat, n_hunks: nat) -> Step {
    match action {
        Action::HunkYes | Action::HunkNo => Step {
            change: step.change,
            hunk: (step.hunk + 1) as usize,
        },
        Action::FileYes | Action::FileNo => Step { change: (step.change + 1) as usize, hunk: 0 },
        Action::Quit => ended(),
        Action::Next => if step.change + 1 == n_changes && step.hunk == last_index(n_hunks) {
            step
        } else {
            Step { change: step.change, hunk: (step.hunk + 1) as usize }
        },
        Action::Prev => if step.hunk > 0 {
            Step { change: step.change, hunk: (step.hunk - 1) as usize }
        } else if step.change > 0 {
            Step { change: (step.change - 1) as usize, hunk: STEP_HUNK_LAST }
        } else {
            step
        },
        _ => step,
    }
}

/// The cursor `step`, moved on to the first hunk of the next change where
/// it has left the `n_hunks` hunks of its change.
pub open spec fn rolled(step: Step, n_hunks: nat) -> Step {
    if step.hunk != STEP_HUNK_LAST && ((n_hunks == 0 && step.hunk > 0) || (n_hunks > 0 && step.hunk
        >= n_hunks)) {
        Step { change: (step.change + 1) as usize, hunk: 0 }
    } else {
        step
    }
}

/// The answer to a hunk after `action`: the hunk at the cursor takes the
/// answer given to it, the hunks that decide over the file take the answer
/// given to the file, every other keeps its own.
pub open spec fn answered(before: bool, action: Action, at_cursor: bool, in_file: bool) -> bool {
    match action {
        Action::HunkYes => at_cursor || before,
        Action::HunkNo => !at_cursor && before,
        Action::FileYes => in_file || before,
        Action::FileNo => !in_file && before,
        _ => before,
    }
}

/// After a whole file was accepted, every answer that decides over it reads
/// as accepted, whatever it was before; after it was rejected, as rejected.
/// The answers to other hunks stay as they are.
pub proof fn lemma_file_answer(before: bool, at_cursor: bool)
    ensures
        answered(before, Action::FileYes, at_cursor, true),
        !answered(before, Action::FileNo, at_cursor, true),
        answered(before, Action::FileYes, at_cursor, false) == before,
        answered(before, Action::FileNo, at_cursor, false) == before,
{
}

/// What is shown before the user is asked.
#[derive(Clone, Copy, Debug, PartialEq, Eq, Structural)]
pub struct Frame {
    /// Whether the names of the file are shown first.
    pub show_header: bool,
    /// The hunk to show, where the cursor points at one.
    pub hunk: Option<usize>,
    /// The number of the hunk, counted from one.
    pub number: usize,
    /// The number of answers that decide over the change.
    pub total: usize,
    /// The kind of the change.
    pub kind: Kind,
}

/// What the caller does after an action.
#[derive(Clone, Copy, Debug, PartialEq, Eq, Structural)]
pub enum Next {
    /// Show the hunk at the cursor and ask again.
    Ask,
    /// Let the user edit the hunk at the cursor, then hand in the result.
    Edit,
    /// Leave at once, applying nothing.
    Exit,
    /// The session has ended: apply what was accepted.
    Finished,
}

/// What the user is told after an action.
#[derive(Clone, Copy, Debug, PartialEq, Eq, Structural)]
pub enum Notice {
    /// There is no hunk to edit.
    CannotEdit,
    /// The hunk holds one run of changed lines, or none.
    CannotSplit,
}

impl Notice {
    /// The notice in words.
    pub open spec fn text(&self) -> Seq<char> {
        match self {
            Notice::CannotEdit => "Sorry, cannot edit this hunk"@,
            Notice::CannotSplit => "Sorry, cannot split this hunk"@,
        }
    }

    /// The notice in words.
    pub fn message(&self) -> (s: String)
        ensures
            s@ == self.text(),
    {
        match self {
            Notice::CannotEdit => "Sorry, cannot edit this hunk".to_owned(),
            Notice::CannotSplit => "Sorry, cannot split this hunk".to_owned(),
        }
    }
}

/// The answer of the session to an action.
#[derive(Clone, Copy, Debug, PartialEq, Eq, Structural)]
pub struct Reply {
    pub next: Next,
    pub notice: Option<Notice>,
    /// Whether the whole screen is cleared.
    pub clear_all: bool,
    /// Whether the names of the file are erased together with the hunk.
    pub clear_header: bool,
}

/// Why an edited hunk was not taken.
#[derive(Debug)]
pub enum EditError {
    /// The cursor points at no hunk.
    NoHunk,
    /// The text is no hunk; the message says where it fails.
    Parse(String),
    /// The text holds no hunk, or more than one.
    NotOneHunk,
    /// The patch does not apply with the hunk in it; the message says why.
    DoesNotApply(String),
}

impl EditError {
    /// The error in words.
    pub open spec fn text(&self) -> Seq<char> {
        match self {
            EditError::NoHunk => "Sorry, cannot edit this hunk"@,
            EditError::Parse(m) => "Sorry, the edited hunk cannot be read: "@ + m@,
            EditError::NotOneHunk => "Sorry, the edit must hold one hunk"@,
            EditError::DoesNotApply(m) => "Sorry, the edited hunk does not apply: "@ + m@,
        }
    }

    /// The error in words.
    pub fn message(&self) -> (s: String)
        ensures
            s@ == self.text(),
    {
        let mut out: Vec<char> = Vec::new();
        match self {
            EditError::NoHunk => {
                push_str(&mut out, "Sorry, cannot edit this hunk");
            },
            EditError::Parse(m) => {
                push_str(&mut out, "Sorry, the edited hunk cannot be read: ");
                push_str(&mut out, m.as_str());
            },
            EditError::NotOneHunk => {
                push_str(&mut out, "Sorry, the edit must hold one hunk");
            },
            EditError::DoesNotApply(m) => {
                push_str(&mut out, "Sorry, the edited hunk does not apply: ");
                push_str(&mut out, m.as_str());
            },
        }
        string_of(out.as_slice())
    }
}

/// The hunk `h` as it is shown: reversed, where `reversed` is set.
pub open spec fn shown(h: HunkView, reversed: bool) -> HunkView {
    if reversed {
        h.reversed()
    } else {
        h
    }
}

/// A session over the changes between two trees.
pub struct Session {
    kinds: Vec<Kind>,
    patches: Vec<Vec<Hunk>>,
    resolutions: Vec<VecMap<bool>>,
    step: Step,
    prev_step: Step,
}

impl Session {
    /// Each change has its patch and its answers, no more answers than its
    /// hunks take, and the cursor points at a hunk of its change, or at the
    /// mark for the last one.
    pub closed spec fn wf(&self) -> bool {
        &&& self.kinds@.len() == self.patches@.len()
        &&& self.kinds@.len() == self.resolutions@.len()
        &&& forall|c: int|
            0 <= c < self.patches@.len() ==> (#[trigger] self.resolutions@[c])@.len() <= slots(
                self.patches@[c]@.len(),
            )
        &&& self.step.change < self.patches@.len() ==> (self.step.hunk == STEP_HUNK_LAST
            || self.step.hunk < slots(self.patches@[self.step.change as int]@.len()))
    }

    /// The number of changes.
    pub closed spec fn len(&self) -> nat {
        self.kinds@.len()
    }

    /// The kind of change `c`.
    pub closed spec fn kind(&self, c: int) -> Kind {
        self.kinds@[c]
    }

    /// The hunks of change `c`.
    pub closed spec fn patch(&self, c: int) -> Seq<HunkView> {
        hunks_view(self.patches@[c]@)
    }

    /// The answer to hunk `h` of change `c`: whether it is accepted. A hunk
    /// that was never answered is not.
    pub closed spec fn resolved(&self, c: int, h: int) -> bool {
        0 <= c < self.resolutions@.len() && flag_at(self.resolutions@[c]@, h)
    }

    /// The cursor.
    pub closed spec fn cursor(&self) -> Step {
        self.step
    }

    /// The cursor before the last action.
    pub closed spec fn prev(&self) -> Step {
        self.prev_step
    }

    /// Whether the session goes on: the cursor points at a change.
    pub open spec fn live(&self) -> bool {
        self.cursor().change < self.len()
    }

    /// A session over `changes`, whose hunks are in `patches`, one patch
    /// for each change; `None` where there are no changes, or not as many
    /// patches as changes. The cursor is at the first hunk of the first
    /// change, and no hunk is accepted.
    pub fn new(changes: &Changes, patches: Vec<Vec<Hunk>>) -> (r: Option<Session>)
        ensures
            r is Some <==> changes.changes@.len() > 0 && patches@.len() == changes.changes@.len(),
            r matches Some(s) ==> {
                &&& s.wf()
                &&& s.len() == patches@.len()
                &&& s.cursor() == (Step { change: 0, hunk: 0 })
                &&& s.prev() == (Step { change: usize::MAX, hunk: usize::MAX })
                &&& forall|c: int|
                    0 <= c < s.len() ==> s.kind(c) == (#[trigger] changes.changes@[c])@.kind
                &&& forall|c: int|
                    0 <= c < s.len() ==> #[trigger] s.patch(c) == hunks_view(patches@[c]@)
                &&& forall|c: int, h: int| !#[trigger] s.resolved(c, h)
            },
    {
        let n = changes.changes.len();
        if n == 0 || patches.len() != n {
            return None;
        }
        let mut kinds: Vec<Kind> = Vec::new();
        let mut resolutions: Vec<VecMap<bool>> = Vec::new();
        let mut c: usize = 0;
        while c < n
            invariant
                c <= n,
                n == changes.changes@.len(),
                kinds@.len() == c,
                resolutions@.len() == c,
                forall|i: int| 0 <= i < c ==> kinds@[i] == (#[trigger] changes.changes@[i])@.kind,
                forall|i: int| 0 <= i < c ==> (#[trigger] resolutions@[i])@.len() == 0,
            decreases n - c,
        {
            kinds.push(changes.changes[c].kind());
            resolutions.push(VecMap::new());
            c += 1;
        }
        Some(
            Session {
                kinds,
                patches,
                resolutions,
                step: Step { change: 0, hunk: 0 },
                prev_step: Step::invalid(),
            },
        )
    }

    /// Whether `other` holds the same changes, patches and answers.
    pub open spec fn same_content(&self, other: &Session) -> bool {
        &&& self.len() == other.len()
        &&& forall|c: int| 0 <= c < self.len() ==> #[trigger] self.kind(c) == other.kind(c)
        &&& forall|c: int| 0 <= c < self.len() ==> #[trigger] self.patch(c) == other.patch(c)
        &&& forall|c: int, h: int| #[trigger] self.resolved(c, h) == other.resolved(c, h)
    }

    /// The number of hunks of the change at the cursor.
    pub open spec fn hunks_here(&self) -> nat {
        self.patch(self.cursor().change as int).len()
    }

    /// The cursor as it stands once the hunks of its change are counted.
    pub open spec fn settled_cursor(&self) -> Step {
        if self.live() {
            settled(self.cursor(), self.hunks_here())
        } else {
            self.cursor()
        }
    }

    /// Counts the hunks of the change at the cursor, so that the cursor
    /// points at a hunk, and says what to show: the names of the file where
    /// the cursor has come to another change, and the hunk, if the change
    /// has any. `None` where the session has ended.
    pub fn begin(&mut self) -> (r: Option<Frame>)
        requires
            old(self).wf(),
        ensures
            final(self).wf(),
            final(self).cursor().hunk != STEP_HUNK_LAST || !old(self).live(),
            final(self).same_content(old(self)),
            final(self).prev() == old(self).prev(),
            final(self).cursor() == old(self).settled_cursor(),
            r is Some <==> old(self).live(),
            r matches Some(f) ==> {
                let step = final(self).cursor();
                let n = old(self).hunks_here();
                &&& f.show_header == (old(self).prev().change != step.change)
                &&& f.hunk == if step.hunk < n {
                    Some(step.hunk)
                } else {
                    None::<usize>
                }
                &&& f.number == step.hunk + 1
                &&& f.total == logical_count(old(self).kind(step.change as int), n)
                &&& f.kind == old(self).kind(step.change as int)
            },
    {
        let c = self.step.change;
        if c >= self.kinds.len() {
            return None;
        }
        let n = self.patches[c].len();
        if self.step.hunk == STEP_HUNK_LAST {
            self.step = Step { change: c, hunk: if n == 0 {
                0
            } else {
                n - 1
            } };
        }
        let kind = self.kinds[c];
        let hunk = self.step.hunk;
        let total = match kind {
            Kind::Modified => if n == 0 {
                1
            } else {
                n
            },
            _ => 1,
        };
        Some(
            Frame {
                show_header: self.prev_step.change != c,
                hunk: if hunk < n {
                    Some(hunk)
                } else {
                    None
                },
                number: hunk + 1,
                total,
                kind,
            },
        )
    }

    /// Splits hunk `h` of change `c`. The hunks that take its place have
    /// its answer; the answers to the hunks after it move on with them.
    /// Returns the number of hunks that stand in its place; one where the
    /// hunk cannot be split, and then nothing is changed.
    pub fn split_at(&mut self, c: usize, h: usize) -> (n: usize)
        requires
            old(self).wf(),
        ensures
            final(self).wf(),
            final(self).len() == old(self).len(),
            final(self).cursor() == old(self).cursor(),
            final(self).prev() == old(self).prev(),
            forall|i: int| 0 <= i < old(self).len() ==> #[trigger] final(self).kind(i) == old(
                self,
            ).kind(i),
            forall|i: int|
                0 <= i < old(self).len() && i != c ==> #[trigger] final(self).patch(i) == old(
                    self,
                ).patch(i),
            forall|i: int, j: int|
                i != c ==> #[trigger] final(self).resolved(i, j) == old(self).resolved(i, j),
            c < old(self).len() && can_split(old(self).patch(c as int), h as int) ==> {
                &&& n == cuts(old(self).patch(c as int)[h as int].lines).len() + 1
                &&& final(self).patch(c as int) == old(self).patch(c as int).take(h as int)
                    + split_view(old(self).patch(c as int)[h as int]) + old(self).patch(
                    c as int,
                ).skip(h + 1)
                &&& forall|j: int|
                    #[trigger] final(self).resolved(c as int, j) == if j < h {
                        old(self).resolved(c as int, j)
                    } else if j < h + n {
                        old(self).resolved(c as int, h as int)
                    } else {
                        old(self).resolved(c as int, j - n + 1)
                    }
            },
            !(c < old(self).len() && can_split(old(self).patch(c as int), h as int)) ==> {
                &&& n == 1
                &&& final(self).same_content(old(self))
            },
    {
        if c >= self.patches.len() {
            return 1;
        }
        let ghost before = self.patches@[c as int]@;
        let ghost row = self.resolutions@[c as int]@;
        let n = split_hunk_at(&mut self.patches[c], h);
        proof {
            assert forall|i: int| 0 <= i < self.patches@.len() && i != c implies hunks_view(
                #[trigger] self.patches@[i]@,
            ) == hunks_view(old(self).patches@[i]@) by {}
        }
        if n == 1 {
            proof {
                assert(final(self).patch(c as int) == old(self).patch(c as int));
            }
            return 1;
        }
        proof {
            assert(hunks_view(self.patches@[c as int]@).len() == self.patches@[c as int]@.len());
            assert(hunks_view(before).len() == before.len());
        }
        let accepted = self.resolutions[c].get(h);
        let ghost patches_after = self.patches@;
        let mut k: usize = 1;
        if h < self.resolutions[c].len() {
            while k < n
                invariant
                    1 <= k <= n,
                    self.kinds@ == old(self).kinds@,
                    self.patches@ == patches_after,
                    self.step == old(self).step,
                    self.prev_step == old(self).prev_step,
                    c < self.resolutions@.len(),
                    h < row.len(),
                    accepted == row[h as int],
                    self.resolutions@.len() == old(self).resolutions@.len(),
                    forall|i: int|
                        0 <= i < self.resolutions@.len() && i != c ==> self.resolutions@[i]
                            == old(self).resolutions@[i],
                    self.resolutions@[c as int]@.len() == row.len() + k - 1,
                    forall|j: int|
                        #[trigger] flag_at(self.resolutions@[c as int]@, j) == if j < h {
                            flag_at(row, j)
                        } else if j < h + k {
                            flag_at(row, h as int)
                        } else {
                            flag_at(row, j - k + 1)
                        },
                decreases n - k,
            {
                let ghost cur = self.resolutions@[c as int]@;
                self.resolutions[c].0.insert(h, accepted);
                proof {
                    let now = self.resolutions@[c as int]@;
                    assert(now == cur.insert(h as int, accepted));
                    assert forall|j: int| #[trigger]
                        flag_at(now, j) == if j < h {
                            flag_at(row, j)
                        } else if j < h + k + 1 {
                            flag_at(row, h as int)
                        } else {
                            flag_at(row, j - k)
                        } by {
                        if 0 <= j < now.len() {
                            if j < h {
                                assert(now[j] == cur[j]);
                            } else if j > h {
                                assert(now[j] == cur[j - 1]);
                            }
                        }
                        if j > h {
                            assert(flag_at(now, j) == flag_at(cur, j - 1));
                        } else {
                            assert(flag_at(now, j) == if j == h {
                                accepted
                            } else {
                                flag_at(cur, j)
                            });
                        }
                    }
                }
                k += 1;
            }
        } else {
            proof {
                assert forall|j: int| #[trigger]
                    flag_at(row, j) == if j < h {
                        flag_at(row, j)
                    } else if j < h + n {
                        flag_at(row, h as int)
                    } else {
                        flag_at(row, j - n + 1)
                    } by {}
            }
        }
        n
    }

    /// Whether `action`, taken at the cursor, changes patches: it asks for
    /// a split, and the hunk at the cursor can be split.
    pub open spec fn splits(&self, action: Action) -> bool {
        action == Action::Split && can_split(
            self.patch(self.cursor().change as int),
            self.settled_cursor().hunk as int,
        )
    }

    /// Does what `action` asks for: records the answer, changes the patch,
    /// and moves the cursor, on to the next change where it has left the
    /// hunks of its own. The session ends when the cursor leaves the last
    /// change, or on request. A request to edit only tells the caller to
    /// let the user edit, and a request to leave only to leave.
    pub fn act(&mut self, action: Action) -> (r: Reply)
        requires
            old(self).wf(),
        ensures
            final(self).wf(),
            final(self).len() == old(self).len(),
            forall|c: int| 0 <= c < old(self).len() ==> #[trigger] final(self).kind(c) == old(
                self,
            ).kind(c),
            !old(self).live() ==> {
                &&& r.next == Next::Finished
                &&& r.notice is None
                &&& final(self).same_content(old(self))
                &&& final(self).cursor() == old(self).cursor()
                &&& final(self).prev() == old(self).prev()
            },
            old(self).live() ==> {
                let at = old(self).settled_cursor();
                let n = old(self).hunks_here();
                let c = at.change as int;
                let count = logical_count(old(self).kind(c), n);
                &&& final(self).prev() == at
                &&& final(self).cursor() == rolled(moved(at, action, old(self).len(), n), n)
                &&& r.next == if action == Action::Exit {
                    Next::Exit
                } else if action == Action::Edit && at.hunk < n {
                    Next::Edit
                } else if !final(self).live() {
                    Next::Finished
                } else {
                    Next::Ask
                }
                &&& r.notice == if action == Action::Edit && at.hunk >= n {
                    Some(Notice::CannotEdit)
                } else if action == Action::Split && !old(self).splits(action) {
                    Some(Notice::CannotSplit)
                } else {
                    None::<Notice>
                }
                &&& r.clear_all == (action == Action::Clear)
                &&& r.clear_header == (at.change != final(self).cursor().change)
                &&& !old(self).splits(action) ==> {
                    &&& forall|i: int|
                        0 <= i < old(self).len() ==> #[trigger] final(self).patch(i) == old(
                            self,
                        ).patch(i)
                    &&& forall|i: int, j: int|
                        #[trigger] final(self).resolved(i, j) == answered(
                            old(self).resolved(i, j),
                            action,
                            i == c && j == at.hunk,
                            i == c && 0 <= j < count,
                        )
                }
                &&& old(self).splits(action) ==> {
                    let pieces = cuts(old(self).patch(c)[at.hunk as int].lines).len() + 1;
                    &&& final(self).patch(c) == old(self).patch(c).take(at.hunk as int)
                        + split_view(old(self).patch(c)[at.hunk as int]) + old(self).patch(c).skip(
                        at.hunk + 1,
                    )
                    &&& forall|i: int|
                        0 <= i < old(self).len() && i != c ==> #[trigger] final(self).patch(i)
                            == old(self).patch(i)
                    &&& forall|i: int, j: int|
                        #[trigger] final(self).resolved(i, j) == if i != c || j < at.hunk {
                            old(self).resolved(i, j)
                        } else if j < at.hunk + pieces {
                            old(self).resolved(c, at.hunk as int)
                        } else {
                            old(self).resolved(c, j - pieces + 1)
                        }
                }
            },
    {
        if self.begin().is_none() {
            return Reply { next: Next::Finished, notice: None, clear_all: false, clear_header: false };
        }
        let at = self.step;
        let c = at.change;
        let changes = self.kinds.len();
        let n = self.patches[c].len();
        let ghost count = logical_count(self.kinds@[c as int], n as nat);
        let ghost mid = *self;
        let mut notice: Option<Notice> = None;
        let mut next = Next::Ask;
        let mut moved = at;
        match action {
            Action::HunkYes => {
                self.resolutions[c].set_flag(at.hunk, true);
                moved = Step { change: c, hunk: at.hunk + 1 };
            },
            Action::HunkNo => {
                self.resolutions[c].set_flag(at.hunk, false);
                moved = Step { change: c, hunk: at.hunk + 1 };
            },
            Action::FileYes => {
                let total = match self.kinds[c] {
                    Kind::Modified => if n == 0 {
                        1
                    } else {
                        n
                    },
                    _ => 1,
                };
                self.resolutions[c].set_flags(total, true);
                moved = Step { change: c + 1, hunk: 0 };
            },
            Action::FileNo => {
                let total = match self.kinds[c] {
                    Kind::Modified => if n == 0 {
                        1
                    } else {
                        n
                    },
                    _ => 1,
                };
                self.resolutions[c].set_flags(total, false);
                moved = Step { change: c + 1, hunk: 0 };
            },
            Action::Quit => {
                moved = Step::invalid();
            },
            Action::Edit => {
                if at.hunk < n {
                    next = Next::Edit;
                } else {
                    notice = Some(Notice::CannotEdit);
                }
            },
            Action::Next => {
                let last = c == changes - 1 && at.hunk == if n == 0 {
                    0
                } else {
                    n - 1
                };
                if !last {
                    moved = Step { change: c, hunk: at.hunk + 1 };
                }
            },
            Action::Prev => {
                if at.hunk > 0 {
                    moved = Step { change: c, hunk: at.hunk - 1 };
                } else if c > 0 {
                    moved = Step { change: c - 1, hunk: STEP_HUNK_LAST };
                }
            },
            Action::Split => {
                let pieces = self.split_at(c, at.hunk);
                if pieces == 1 {
                    notice = Some(Notice::CannotSplit);
                }
            },
            Action::Exit => {
                next = Next::Exit;
            },
            Action::Clear | Action::Ignore => {},
        }
        let ghost post = *self;
        proof {
            assert(mid.splits(action) == old(self).splits(action)) by {
                assert(mid.patch(c as int) == old(self).patch(c as int));
            }
            assert forall|i: int, j: int| !mid.splits(action) implies #[trigger] post.resolved(i, j)
                == answered(
                mid.resolved(i, j),
                action,
                i == c && j == at.hunk,
                i == c && 0 <= j < count,
            ) by {
                if action == Action::Split {
                } else if i == c {
                    assert(post.resolved(c as int, j) == flag_at(post.resolutions@[c as int]@, j));
                    assert(mid.resolved(c as int, j) == flag_at(mid.resolutions@[c as int]@, j));
                } else if 0 <= i < post.resolutions@.len() {
                    assert(post.resolutions@[i] == mid.resolutions@[i]);
                }
            }
            assert forall|i: int| 0 <= i < mid.len() && (i != c || !mid.splits(
                action,
            )) implies #[trigger] post.patch(i) == mid.patch(i) by {
                if action != Action::Split {
                    assert(post.patches@[i] == mid.patches@[i]);
                }
            }
            assert forall|i: int| 0 <= i < mid.len() implies #[trigger] post.kind(i) == mid.kind(
                i,
            ) by {}
        }
        let mut step = moved;
        if step.hunk != STEP_HUNK_LAST && ((n == 0 && step.hunk > 0) || (n > 0 && step.hunk >= n)) {
            step = Step { change: step.change + 1, hunk: 0 };
        }
        self.prev_step = at;
        self.step = step;
        if step.change >= changes {
            match next {
                Next::Ask => {
                    next = Next::Finished;
                },
                _ => {},
            }
        }
        let clear_all = match action {
            Action::Clear => true,
            _ => false,
        };
        proof {
            assert forall|i: int| 0 <= i < old(self).len() implies #[trigger] self.kind(i) == old(
                self,
            ).kind(i) by {
                assert(post.kind(i) == mid.kind(i));
                assert(mid.kind(i) == old(self).kind(i));
            }
            assert forall|i: int| 0 <= i < old(self).len() && (i != c || !old(self).splits(
                action,
            )) implies #[trigger] self.patch(i) == old(self).patch(i) by {
                assert(self.patch(i) == post.patch(i));
                assert(post.patch(i) == mid.patch(i));
                assert(mid.patch(i) == old(self).patch(i));
            }
            assert(self.patch(c as int) == post.patch(c as int));
            assert(mid.kind(c as int) == old(self).kind(c as int));
            assert(count == logical_count(old(self).kind(c as int), old(self).hunks_here()));
            assert forall|i: int, j: int| #[trigger]
                self.resolved(i, j) == post.resolved(i, j) && mid.resolved(i, j) == old(
                    self,
                ).resolved(i, j) by {}
            if old(self).splits(action) {
                let pieces = cuts(mid.patch(c as int)[at.hunk as int].lines).len() + 1;
                assert forall|i: int, j: int| #[trigger]
                    self.resolved(i, j) == if i != c || j < at.hunk {
                        old(self).resolved(i, j)
                    } else if j < at.hunk + pieces {
                        old(self).resolved(c as int, at.hunk as int)
                    } else {
                        old(self).resolved(c as int, j - pieces + 1)
                    } by {
                    assert(self.resolved(i, j) == post.resolved(i, j));
                    assert(mid.resolved(i, j) == old(self).resolved(i, j));
                    assert(mid.resolved(c as int, at.hunk as int) == old(self).resolved(
                        c as int,
                        at.hunk as int,
                    ));
                    assert(mid.resolved(c as int, j - pieces + 1) == old(self).resolved(
                        c as int,
                        j - pieces + 1,
                    ));
                }
            }
        }
        Reply { next, notice, clear_all, clear_header: at.change != step.change }
    }

    /// Whether the cursor points at a hunk, once the hunks are counted.
    pub open spec fn at_hunk(&self) -> bool {
        self.live() && self.settled_cursor().hunk < self.hunks_here()
    }

    /// The hunk at the cursor.
    pub open spec fn hunk_here(&self) -> HunkView {
        self.patch(self.cursor().change as int)[self.settled_cursor().hunk as int]
    }

    /// The text that the editor is given for the hunk at the cursor, shown
    /// as its reverse where `reversed` is set; `None` where the cursor
    /// points at no hunk.
    pub fn edit_request(&self, reversed: bool) -> (r: Option<String>)
        requires
            self.wf(),
        ensures
            r is Some <==> self.at_hunk(),
            r matches Some(text) ==> text@ == edit_text(hunk_text(shown(self.hunk_here(), reversed))),
    {
        let c = self.step.change;
        if c >= self.kinds.len() {
            return None;
        }
        let n = self.patches[c].len();
        let h = if self.step.hunk == STEP_HUNK_LAST {
            if n == 0 {
                0
            } else {
                n - 1
            }
        } else {
            self.step.hunk
        };
        if h >= n {
            return None;
        }
        let display = reverse_if(&self.patches[c][h], reversed);
        let text = hunk_to_text(&display);
        Some(edit_message(text.as_str()))
    }

    /// The hunk that the edited text `edited` puts in the place of the hunk
    /// at the cursor: the one hunk that the text holds once its remarks are
    /// taken out, turned back where hunks are shown reversed.
    pub open spec fn edited_hunk(edited: Seq<char>, reversed: bool) -> Option<HunkView> {
        match parsed_hunks(without_comments(edited)) {
            Some(hunks) => if hunks.len() == 1 {
                Some(shown(hunks[0], reversed))
            } else {
                None
            },
            None => None,
        }
    }

    /// The patch of the change at the cursor with `hunk` in the place of
    /// the hunk at the cursor.
    pub open spec fn patch_with(&self, hunk: HunkView) -> Seq<HunkView> {
        self.patch(self.cursor().change as int).update(self.settled_cursor().hunk as int, hunk)
    }

    /// Whether the edited text `edited` is taken for the hunk at the cursor
    /// of a change whose original text is `original`: the cursor points at
    /// a hunk, the text holds one hunk, and the patch applies with that
    /// hunk in it.
    pub open spec fn edit_taken(&self, original: Seq<char>, edited: Seq<char>, reversed: bool) -> bool {
        &&& self.at_hunk()
        &&& Self::edited_hunk(edited, reversed) matches Some(hunk)
        &&& applied_text(original, patch_text(self.patch_with(hunk))) is Some
    }

    /// Puts `hunk` in the place of the hunk at the cursor, accepts it, and
    /// moves the cursor on. `None` where the cursor points at no hunk; then
    /// nothing is changed but the cursor, which is settled.
    pub fn replace_hunk(&mut self, hunk: Hunk) -> (r: Option<Reply>)
        requires
            old(self).wf(),
        ensures
            final(self).wf(),
            final(self).len() == old(self).len(),
            forall|c: int| 0 <= c < old(self).len() ==> #[trigger] final(self).kind(c) == old(
                self,
            ).kind(c),
            r is Some <==> old(self).at_hunk(),
            match r {
                Some(reply) => {
                    let at = old(self).settled_cursor();
                    let n = old(self).hunks_here();
                    let c = at.change as int;
                    &&& final(self).prev() == at
                    &&& final(self).cursor() == rolled(
                        Step { change: at.change, hunk: (at.hunk + 1) as usize },
                        n,
                    )
                    &&& final(self).patch(c) == old(self).patch_with(hunk@)
                    &&& forall|i: int|
                        0 <= i < old(self).len() && i != c ==> #[trigger] final(self).patch(i)
                            == old(self).patch(i)
                    &&& forall|i: int, j: int|
                        #[trigger] final(self).resolved(i, j) == ((i == c && j == at.hunk) || old(
                            self,
                        ).resolved(i, j))
                    &&& reply.next == if final(self).live() {
                        Next::Ask
                    } else {
                        Next::Finished
                    }
                    &&& reply.notice is None
                    &&& !reply.clear_all
                    &&& reply.clear_header == (at.change != final(self).cursor().change)
                },
                None => {
                    &&& final(self).same_content(old(self))
                    &&& final(self).cursor() == old(self).settled_cursor()
                    &&& final(self).prev() == old(self).prev()
                },
            },
    {
        let frame = self.begin();
        let ghost mid = *self;
        let at = self.step;
        let c = at.change;
        if frame.is_none() {
            return None;
        }
        let n = self.patches[c].len();
        let h = at.hunk;
        proof {
            assert(mid.patch(c as int) == old(self).patch(c as int));
            assert(mid.patch(c as int).len() == n);
        }
        if h >= n {
            return None;
        }
        let changes = self.kinds.len();
        let ghost replaced = hunk@;
        self.patches[c].set(h, hunk);
        self.resolutions[c].set_flag(h, true);
        let mut step = Step { change: c, hunk: h + 1 };
        if step.hunk != STEP_HUNK_LAST && step.hunk >= n {
            step = Step { change: c + 1, hunk: 0 };
        }
        self.prev_step = at;
        self.step = step;
        proof {
            assert(self.patch(c as int) =~= old(self).patch_with(replaced));
            assert forall|k: int| 0 <= k < old(self).len() implies #[trigger] self.kind(k) == old(
                self,
            ).kind(k) by {
                assert(mid.kind(k) == old(self).kind(k));
            }
            assert forall|k: int| 0 <= k < old(self).len() && k != c implies #[trigger] self.patch(
                k,
            ) == old(self).patch(k) by {
                assert(self.patches@[k] == mid.patches@[k]);
                assert(mid.patch(k) == old(self).patch(k));
            }
            assert forall|k: int, j: int| #[trigger]
                self.resolved(k, j) == ((k == c && j == h) || old(self).resolved(k, j)) by {
                assert(mid.resolved(k, j) == old(self).resolved(k, j));
                if k == c {
                    assert(self.resolved(c as int, j) == flag_at(self.resolutions@[c as int]@, j));
                    assert(mid.resolved(c as int, j) == flag_at(mid.resolutions@[c as int]@, j));
                } else if 0 <= k < self.resolutions@.len() {
                    assert(self.resolutions@[k] == mid.resolutions@[k]);
                }
            }
        }
        Some(
            Reply {
                next: if step.change >= changes {
                    Next::Finished
                } else {
                    Next::Ask
                },
                notice: None,
                clear_all: false,
                clear_header: at.change != step.change,
            },
        )
    }

    /// Takes the text `edited`, which the user made of the text of
    /// [`Session::edit_request`], for the hunk at the cursor. Where it is
    /// taken, the hunk is replaced and accepted, and the cursor moves on.
    /// Where it is not, nothing is changed but the cursor, which is
    /// settled.
    pub fn finish_edit(&mut self, original: &str, edited: &str, reversed: bool) -> (r: Result<
        Reply,
        EditError,
    >)
        requires
            old(self).wf(),
        ensures
            final(self).wf(),
            final(self).len() == old(self).len(),
            forall|c: int| 0 <= c < old(self).len() ==> #[trigger] final(self).kind(c) == old(
                self,
            ).kind(c),
            r is Ok <==> old(self).edit_taken(original@, edited@, reversed),
            match r {
                Ok(reply) => {
                    let at = old(self).settled_cursor();
                    let n = old(self).hunks_here();
                    let c = at.change as int;
                    let hunk = Self::edited_hunk(edited@, reversed)->0;
                    &&& final(self).prev() == at
                    &&& final(self).cursor() == rolled(
                        Step { change: at.change, hunk: (at.hunk + 1) as usize },
                        n,
                    )
                    &&& final(self).patch(c) == old(self).patch_with(hunk)
                    &&& forall|i: int|
                        0 <= i < old(self).len() && i != c ==> #[trigger] final(self).patch(i)
                            == old(self).patch(i)
                    &&& forall|i: int, j: int|
                        #[trigger] final(self).resolved(i, j) == ((i == c && j == at.hunk) || old(
                            self,
                        ).resolved(i, j))
                    &&& reply.next == if final(self).live() {
                        Next::Ask
                    } else {
                        Next::Finished
                    }
                    &&& reply.notice is None
                    &&& !reply.clear_all
                    &&& reply.clear_header == (at.change != final(self).cursor().change)
                },
                Err(e) => {
                    &&& final(self).same_content(old(self))
                    &&& final(self).cursor() == old(self).settled_cursor()
                    &&& final(self).prev() == old(self).prev()
                    &&& e is NoHunk <==> !old(self).at_hunk()
                    &&& e is Parse <==> old(self).at_hunk() && parsed_hunks(
                        without_comments(edited@),
                    ) is None
                    &&& e is NotOneHunk <==> old(self).at_hunk() && parsed_hunks(
                        without_comments(edited@),
                    ) is Some && Self::edited_hunk(edited@, reversed) is None
                },
            },
    {
        let frame = self.begin();
        let ghost mid = *self;
        let at = self.step;
        let c = at.change;
        if frame.is_none() {
            return Err(EditError::NoHunk);
        }
        let n = self.patches[c].len();
        let h = at.hunk;
        proof {
            assert(mid.patch(c as int) == old(self).patch(c as int));
            assert(mid.patch(c as int).len() == n);
        }
        if h >= n {
            return Err(EditError::NoHunk);
        }
        let stripped = strip_comments(edited);
        let hunks = match parse(stripped.as_str()) {
            Ok(hunks) => hunks,
            Err(e) => {
                return Err(
                    EditError::Parse(
                        match e {
                            PatchError::Parse(m) => m,
                            PatchError::Apply(m) => m,
                        },
                    ),
                );
            },
        };
        if hunks.len() != 1 {
            return Err(EditError::NotOneHunk);
        }
        let ghost parsed = hunks_view(hunks@);
        proof {
            assert(parsed[0] == hunks@[0]@);
        }
        let hunk = reverse_if(&hunks[0], reversed);
        let mut candidate: Vec<Hunk> = Vec::new();
        let mut i: usize = 0;
        while i < n
            invariant
                i <= n,
                *self == mid,
                mid.wf(),
                c < self.patches@.len(),
                n == self.patches@[c as int]@.len(),
                h < n,
                candidate@.len() == i,
                forall|j: int|
                    0 <= j < i ==> (#[trigger] candidate@[j])@ == if j == h {
                        hunk@
                    } else {
                        self.patches@[c as int]@[j]@
                    },
            decreases n - i,
        {
            if i == h {
                candidate.push(hunk.clone());
            } else {
                candidate.push(self.patches[c][i].clone());
            }
            i += 1;
        }
        proof {
            assert(hunks_view(candidate@) =~= mid.patch_with(hunk@));
            assert(mid.patch_with(hunk@) == old(self).patch_with(hunk@));
        }
        match apply(original, &candidate) {
            Ok(_) => {},
            Err(e) => {
                return Err(
                    EditError::DoesNotApply(
                        match e {
                            PatchError::Parse(m) => m,
                            PatchError::Apply(m) => m,
                        },
                    ),
                );
            },
        }
        proof {
            assert(mid.at_hunk());
            assert(mid.settled_cursor() == old(self).settled_cursor());
            assert(mid.hunks_here() == old(self).hunks_here());
            assert(mid.prev() == old(self).prev());
        }
        match self.replace_hunk(hunk) {
            Some(reply) => {
                proof {
                    assert forall|k: int| 0 <= k < old(self).len() implies #[trigger] self.kind(k)
                        == old(self).kind(k) by {
                        assert(mid.kind(k) == old(self).kind(k));
                    }
                    assert forall|k: int| 0 <= k < old(self).len() && k != c implies #[trigger]
                        self.patch(k) == old(self).patch(k) by {
                        assert(mid.patch(k) == old(self).patch(k));
                    }
                    assert forall|k: int, j: int| #[trigger]
                        self.resolved(k, j) == ((k == c && j == h) || old(self).resolved(k, j)) by {
                        assert(mid.resolved(k, j) == old(self).resolved(k, j));
                    }
                }
                Ok(reply)
            },
            None => Err(EditError::NoHunk),
        }
    }

    /// The cursor.
    pub fn step(&self) -> (s: Step)
        ensures
            s == self.cursor(),
    {
        self.step
    }

    /// The cursor before the last action.
    pub fn prev_step(&self) -> (s: Step)
        ensures
            s == self.prev(),
    {
        self.prev_step
    }

    /// Whether the session has ended.
    pub fn finished(&self) -> (b: bool)
        ensures
            b == !self.live(),
    {
        self.step.change >= self.kinds.len()
    }

    /// The number of changes.
    pub fn changes(&self) -> (n: usize)
        ensures
            n == self.len(),
    {
        self.kinds.len()
    }

    /// The hunks of change `c`; `None` where there is no such change.
    pub fn hunks(&self, c: usize) -> (r: Option<&Vec<Hunk>>)
        requires
            self.wf(),
        ensures
            r is Some <==> c < self.len(),
            r matches Some(hunks) ==> hunks_view(hunks@) == self.patch(c as int),
    {
        if c < self.patches.len() {
            Some(&self.patches[c])
        } else {
            None
        }
    }

    /// The answers to the hunks of change `c`, as far as any were given.
    pub closed spec fn row(&self, c: int) -> Seq<bool> {
        self.resolutions@[c]@
    }

    /// The answers to the hunks of change `c` are those that
    /// [`Session::resolved`] reads.
    pub proof fn lemma_row(&self, c: int, h: int)
        requires
            0 <= c < self.len(),
            self.wf(),
        ensures
            flag_at(self.row(c), h) == self.resolved(c, h),
    {
    }

    /// The answers to the hunks of change `c`; `None` where there is no
    /// such change.
    pub fn answers(&self, c: usize) -> (r: Option<&VecMap<bool>>)
        requires
            self.wf(),
        ensures
            r is Some <==> c < self.len(),
            r matches Some(row) ==> row@ == self.row(c as int),
    {
        if c < self.resolutions.len() {
            Some(&self.resolutions[c])
        } else {
            None
        }
    }

    /// What is done for change `c` of `changes`, whose file in the original
    /// tree holds `original`, now that the session has ended: the hunks
    /// that were not accepted are emptied, and the rest is applied. `None`
    /// where the session or `changes` has no change `c`.
    pub fn apply_at(&self, changes: &Changes, c: usize, original: &str) -> (r: Option<
        Result<FileOp, PatchError>,
    >)
        requires
            self.wf(),
        ensures
            r is Some <==> c < self.len() && c < changes.changes@.len(),
            r matches Some(done) ==> {
                let change = changes.changes@[c as int]@;
                let kept = hollowed(self.patch(c as int), self.row(c as int));
                &&& change.kind == Kind::Modified ==> match applied_text(
                    original@,
                    patch_text(kept),
                ) {
                    Some(text) => done matches Ok(FileOp::Write { path, text: t }) && path@
                        == crate::paths::joined(changes.modified_dir(), change.path) && t@ == text,
                    None => done is Err,
                }
                &&& change.kind == Kind::Removed ==> if self.resolved(c as int, 0) {
                    done matches Ok(FileOp::Keep)
                } else {
                    done matches Ok(FileOp::Copy { from, to }) && from@ == crate::paths::joined(
                        changes.original_dir(),
                        change.path,
                    ) && to@ == crate::paths::joined(changes.modified_dir(), change.path)
                }
                &&& change.kind == Kind::Added ==> if self.resolved(c as int, 0) {
                    done matches Ok(FileOp::Keep)
                } else {
                    done matches Ok(FileOp::Remove { path }) && path@ == crate::paths::joined(
                        changes.modified_dir(),
                        change.path,
                    )
                }
            },
    {
        if c >= self.patches.len() || c >= changes.changes.len() {
            return None;
        }
        let kept = hollow(&self.patches[c], &self.resolutions[c]);
        Some(apply_change(changes, &changes.changes[c], original, &kept, &self.resolutions[c]))
    }

    /// Whether hunk `h` of change `c` is accepted.
    pub fn resolution(&self, c: usize, h: usize) -> (b: bool)
        ensures
            b == self.resolved(c as int, h as int),
    {
        if c < self.resolutions.len() {
            let b = self.resolutions[c].get(h);
            proof {
                if h >= self.resolutions@[c as int]@.len() {
                    crate::vec_map::lemma_default_flag(b);
                }
            }
            b
        } else {
            false
        }
    }
}

} // verus!
