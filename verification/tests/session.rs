use diffpatch::apply::{apply_change, hollow, FileOp};
use diffpatch::changes::{ChangeKind, Changes, Kind};
use diffpatch::diff_patch::{Action, Step, STEP_HUNK_LAST};
use diffpatch::hunk::Hunk;
use diffpatch::patch::build;
use diffpatch::render::hunk_to_text;
use diffpatch::session::{EditError, Next, Notice, Session};
use diffpatch::vec_map::VecMap;

fn strings(paths: &[&str]) -> Vec<String> {
    paths.iter().map(|p| p.to_string()).collect()
}

const A_OLD: &str = "a\nb\nc\nd\ne\nf\ng\nh\ni\nj\n";
const A_NEW: &str = "a\nB\nc\nd\ne\nf\ng\nh\nI\nj\n";

/// Two modified files: `a` with two hunks, `b` with one.
fn two_files() -> (Changes, Session) {
    let changes = Changes::detect("orig", "mod", &strings(&["a", "b"]), &strings(&["a", "b"]));
    let patches = vec![build(A_OLD, A_NEW, 1), build("1\n2\n3\n", "1\nX\n3\n", 1)];
    assert_eq!(patches[0].len(), 2);
    assert_eq!(patches[1].len(), 1);
    let session = match Session::new(&changes, patches) {
        Some(s) => s,
        None => panic!("there are changes"),
    };
    (changes, session)
}

#[test]
fn a_session_needs_changes_and_their_patches() {
    let none = Changes::detect("o", "m", &strings(&[]), &strings(&[]));
    assert!(Session::new(&none, Vec::new()).is_none());
    let one = Changes::detect("o", "m", &strings(&["a"]), &strings(&["a"]));
    assert!(Session::new(&one, Vec::new()).is_none());
    assert!(Session::new(&one, vec![Vec::new(), Vec::new()]).is_none());
    assert!(Session::new(&one, vec![Vec::new()]).is_some());
}

#[test]
fn a_new_session_accepts_nothing() {
    let (_, s) = two_files();
    assert_eq!(s.changes(), 2);
    assert_eq!(s.step(), Step { change: 0, hunk: 0 });
    assert_eq!(s.prev_step(), Step::invalid());
    assert!(!s.finished());
    for c in 0..4 {
        for h in 0..4 {
            assert!(!s.resolution(c, h));
        }
    }
}

#[test]
fn the_first_frame_shows_the_heading() {
    let (_, mut s) = two_files();
    let f = s.begin().expect("the session goes on");
    assert!(f.show_header);
    assert_eq!(f.hunk, Some(0));
    assert_eq!(f.number, 1);
    assert_eq!(f.total, 2);
    assert_eq!(f.kind, Kind::Modified);
}

#[test]
fn answers_move_through_hunks_and_files() {
    let (_, mut s) = two_files();
    let r = s.act(Action::HunkYes);
    assert_eq!(r.next, Next::Ask);
    assert!(!r.clear_header);
    assert!(!r.clear_all);
    assert_eq!(r.notice, None);
    assert_eq!(s.step(), Step { change: 0, hunk: 1 });
    assert_eq!(s.prev_step(), Step { change: 0, hunk: 0 });
    let f = s.begin().expect("the session goes on");
    assert!(!f.show_header);
    assert_eq!(f.number, 2);
    let r = s.act(Action::HunkNo);
    assert_eq!(r.next, Next::Ask);
    assert!(r.clear_header);
    assert_eq!(s.step(), Step { change: 1, hunk: 0 });
    let f = s.begin().expect("the session goes on");
    assert!(f.show_header);
    assert_eq!(f.total, 1);
    let r = s.act(Action::HunkYes);
    assert_eq!(r.next, Next::Finished);
    assert!(s.finished());
    assert_eq!(s.step(), Step { change: 2, hunk: 0 });
    assert!(s.begin().is_none());
    assert!(s.resolution(0, 0));
    assert!(!s.resolution(0, 1));
    assert!(s.resolution(1, 0));
    assert_eq!(s.act(Action::HunkYes).next, Next::Finished);
    assert_eq!(s.step(), Step { change: 2, hunk: 0 });
}

#[test]
fn a_rejected_hunk_can_be_accepted_again() {
    let (_, mut s) = two_files();
    s.act(Action::HunkYes);
    s.act(Action::Prev);
    assert_eq!(s.step(), Step { change: 0, hunk: 0 });
    assert!(s.resolution(0, 0));
    s.act(Action::HunkNo);
    assert!(!s.resolution(0, 0));
}

#[test]
fn whole_files_are_answered_at_once() {
    let (_, mut s) = two_files();
    let r = s.act(Action::FileYes);
    assert_eq!(r.next, Next::Ask);
    assert!(r.clear_header);
    assert_eq!(s.step(), Step { change: 1, hunk: 0 });
    assert!(s.resolution(0, 0));
    assert!(s.resolution(0, 1));
    assert!(!s.resolution(0, 2));
    assert!(!s.resolution(1, 0));
    s.act(Action::Prev);
    s.begin();
    assert_eq!(s.step(), Step { change: 0, hunk: 1 });
    s.act(Action::FileNo);
    assert!(!s.resolution(0, 0));
    assert!(!s.resolution(0, 1));
}

#[test]
fn next_stops_at_the_last_hunk() {
    let (_, mut s) = two_files();
    assert_eq!(s.act(Action::Next).next, Next::Ask);
    assert_eq!(s.step(), Step { change: 0, hunk: 1 });
    s.act(Action::Next);
    assert_eq!(s.step(), Step { change: 1, hunk: 0 });
    let r = s.act(Action::Next);
    assert_eq!(r.next, Next::Ask);
    assert_eq!(s.step(), Step { change: 1, hunk: 0 });
    assert!(!s.finished());
    assert!(!s.resolution(0, 0) && !s.resolution(0, 1) && !s.resolution(1, 0));
}

#[test]
fn prev_goes_back_to_the_last_hunk_of_the_file_before() {
    let (_, mut s) = two_files();
    s.act(Action::Prev);
    assert_eq!(s.step(), Step { change: 0, hunk: 0 });
    s.act(Action::FileNo);
    assert_eq!(s.step(), Step { change: 1, hunk: 0 });
    let r = s.act(Action::Prev);
    assert!(r.clear_header);
    assert_eq!(s.step(), Step { change: 0, hunk: STEP_HUNK_LAST });
    let f = s.begin().expect("the session goes on");
    assert_eq!(s.step(), Step { change: 0, hunk: 1 });
    assert_eq!(f.hunk, Some(1));
    assert_eq!(f.number, 2);
    assert!(f.show_header);
    s.act(Action::Prev);
    assert_eq!(s.step(), Step { change: 0, hunk: 0 });
}

#[test]
fn quit_ends_the_session_with_what_was_answered() {
    let (_, mut s) = two_files();
    s.act(Action::HunkYes);
    let r = s.act(Action::Quit);
    assert_eq!(r.next, Next::Finished);
    assert_eq!(s.step(), Step::invalid());
    assert!(s.finished());
    assert!(s.resolution(0, 0));
    assert!(!s.resolution(0, 1));
}

#[test]
fn some_actions_change_nothing() {
    let (_, mut s) = two_files();
    let r = s.act(Action::Clear);
    assert!(r.clear_all);
    assert_eq!(r.next, Next::Ask);
    assert_eq!(s.step(), Step { change: 0, hunk: 0 });
    let r = s.act(Action::Ignore);
    assert!(!r.clear_all);
    assert_eq!(r.next, Next::Ask);
    let r = s.act(Action::Exit);
    assert_eq!(r.next, Next::Exit);
    assert_eq!(s.step(), Step { change: 0, hunk: 0 });
    assert!(!s.finished());
}

#[test]
fn a_file_without_hunks_takes_one_answer() {
    let changes = Changes::detect("o", "m", &strings(&["a", "b"]), &strings(&["a", "b"]));
    let patches = vec![build("same\n", "same\n", 3), build("1\n", "2\n", 3)];
    assert_eq!(patches[0].len(), 0);
    let mut s = Session::new(&changes, patches).expect("there are changes");
    let f = s.begin().expect("the session goes on");
    assert_eq!(f.hunk, None);
    assert_eq!(f.number, 1);
    assert_eq!(f.total, 1);
    let r = s.act(Action::Edit);
    assert_eq!(r.notice, Some(Notice::CannotEdit));
    assert_eq!(r.next, Next::Ask);
    let r = s.act(Action::Split);
    assert_eq!(r.notice, Some(Notice::CannotSplit));
    s.act(Action::HunkYes);
    assert!(s.resolution(0, 0));
    assert_eq!(s.step(), Step { change: 1, hunk: 0 });
    s.act(Action::Prev);
    s.begin();
    assert_eq!(s.step(), Step { change: 0, hunk: 0 });
    s.act(Action::Next);
    assert_eq!(s.step(), Step { change: 1, hunk: 0 });
}

#[test]
fn split_pieces_start_with_the_answer_of_the_hunk() {
    let changes = Changes::detect("o", "m", &strings(&["a"]), &strings(&["a"]));
    let original = "a\nb\nc\nd\ne\n1\n2\n3\n4\n5\n6\n7\n8\nz\n";
    let modified = "a\nB\nc\nD\ne\n1\n2\n3\n4\n5\n6\n7\n8\nZ\n";
    let patches = vec![build(original, modified, 1)];
    assert_eq!(patches[0].len(), 2);
    let mut s = Session::new(&changes, patches).expect("there are changes");
    s.act(Action::HunkYes);
    s.act(Action::HunkYes);
    assert!(s.finished());
    let mut s2 = Session::new(&changes, vec![build(original, modified, 1)]).expect("changes");
    s2.act(Action::HunkYes);
    s2.act(Action::Prev);
    let r = s2.act(Action::Split);
    assert_eq!(r.notice, None);
    assert_eq!(r.next, Next::Ask);
    assert_eq!(s2.step(), Step { change: 0, hunk: 0 });
    assert_eq!(s2.hunks(0).expect("the change is there").len(), 3);
    assert!(s2.resolution(0, 0));
    assert!(s2.resolution(0, 1));
    assert!(!s2.resolution(0, 2));
    let f = s2.begin().expect("the session goes on");
    assert_eq!(f.total, 3);
    s2.act(Action::Next);
    s2.act(Action::HunkNo);
    assert!(s2.resolution(0, 0));
    assert!(!s2.resolution(0, 1));
    match s2.apply_at(&changes, 0, original) {
        Some(Ok(FileOp::Write { path, text })) => {
            assert_eq!(path, "m/a");
            assert_eq!(text, "a\nB\nc\nd\ne\n1\n2\n3\n4\n5\n6\n7\n8\nz\n");
        }
        _ => panic!("the accepted piece applies"),
    }
}

#[test]
fn splitting_moves_later_answers_along() {
    let changes = Changes::detect("o", "m", &strings(&["a"]), &strings(&["a"]));
    let original = "a\nb\nc\nd\ne\n1\n2\n3\n4\n5\n6\n7\n8\nz\n";
    let modified = "a\nB\nc\nD\ne\n1\n2\n3\n4\n5\n6\n7\n8\nZ\n";
    let mut s = Session::new(&changes, vec![build(original, modified, 1)]).expect("changes");
    s.act(Action::Next);
    s.act(Action::HunkYes);
    assert!(!s.resolution(0, 0));
    assert!(s.resolution(0, 1));
    assert_eq!(s.split_at(0, 0), 2);
    assert!(!s.resolution(0, 0));
    assert!(!s.resolution(0, 1));
    assert!(s.resolution(0, 2));
    assert_eq!(s.split_at(0, 2), 1);
    assert_eq!(s.split_at(3, 0), 1);
}

#[test]
fn a_single_run_is_not_split() {
    let (_, mut s) = two_files();
    let before = hunk_to_text(&s.hunks(0).expect("the change is there")[0]);
    let r = s.act(Action::Split);
    assert_eq!(r.notice, Some(Notice::CannotSplit));
    assert_eq!(r.next, Next::Ask);
    assert_eq!(s.step(), Step { change: 0, hunk: 0 });
    assert_eq!(s.hunks(0).expect("the change is there").len(), 2);
    assert_eq!(hunk_to_text(&s.hunks(0).expect("the change is there")[0]), before);
}

#[test]
fn an_edited_hunk_is_accepted() {
    let (changes, mut s) = two_files();
    let r = s.act(Action::Edit);
    assert_eq!(r.next, Next::Edit);
    assert_eq!(s.step(), Step { change: 0, hunk: 0 });
    let text = s.edit_request(false).expect("the cursor points at a hunk");
    assert!(text.contains("@@ -1,3 +1,3 @@\n a\n-b\n+B\n c\n"));
    let edited = text.replace("+B\n", "+BB\n");
    match s.finish_edit(A_OLD, &edited, false) {
        Ok(reply) => {
            assert_eq!(reply.next, Next::Ask);
            assert!(!reply.clear_header);
        }
        Err(_) => panic!("the edited hunk applies"),
    }
    assert_eq!(s.step(), Step { change: 0, hunk: 1 });
    assert!(s.resolution(0, 0));
    assert_eq!(
        hunk_to_text(&s.hunks(0).expect("the change is there")[0]),
        "@@ -1,3 +1,3 @@\n a\n-b\n+BB\n c\n"
    );
    match s.apply_at(&changes, 0, A_OLD) {
        Some(Ok(FileOp::Write { text, .. })) => {
            assert_eq!(text, "a\nBB\nc\nd\ne\nf\ng\nh\ni\nj\n")
        }
        _ => panic!("the accepted hunk applies"),
    }
}

#[test]
fn a_broken_edit_changes_nothing() {
    let (_, mut s) = two_files();
    let before = hunk_to_text(&s.hunks(0).expect("the change is there")[0]);
    assert!(matches!(s.finish_edit(A_OLD, "no hunk at all", false), Err(EditError::NotOneHunk)));
    assert!(matches!(s.finish_edit(A_OLD, "# only remarks\n", false), Err(EditError::NotOneHunk)));
    assert!(matches!(
        s.finish_edit(A_OLD, "@@ -1,3 +1,3 @@\n a\n-b\n", false),
        Err(EditError::Parse(_))
    ));
    assert!(matches!(
        s.finish_edit(A_OLD, "@@ -1,3 +1,3 @@\n x\n-y\n+Y\n z\n", false),
        Err(EditError::DoesNotApply(_))
    ));
    assert_eq!(s.step(), Step { change: 0, hunk: 0 });
    assert!(!s.resolution(0, 0));
    assert_eq!(hunk_to_text(&s.hunks(0).expect("the change is there")[0]), before);
    s.act(Action::Quit);
    assert!(matches!(s.finish_edit(A_OLD, "", false), Err(EditError::NoHunk)));
    assert!(s.edit_request(false).is_none());
}

#[test]
fn reversed_hunks_are_edited_reversed() {
    let (_, mut s) = two_files();
    let text = s.edit_request(true).expect("the cursor points at a hunk");
    assert!(text.contains("@@ -1,3 +1,3 @@\n a\n+b\n-B\n c\n"));
    assert!(s.finish_edit(A_OLD, &text, true).is_ok());
    assert_eq!(
        hunk_to_text(&s.hunks(0).expect("the change is there")[0]),
        "@@ -1,3 +1,3 @@\n a\n-b\n+B\n c\n"
    );
}

#[test]
fn rejecting_everything_restores_the_original() {
    let changes =
        Changes::detect("orig", "mod", &strings(&["a.txt"]), &strings(&["a.txt", "b.txt"]));
    assert_eq!(changes.changes.len(), 2);
    assert!(matches!(&changes.changes[0], ChangeKind::Modified(p) if p == "a.txt"));
    assert!(matches!(&changes.changes[1], ChangeKind::Added(p) if p == "b.txt"));
    let a = build("1\n2\n3\n", "1\nX\n3\n", 1);
    assert_eq!(a.len(), 1);
    assert_eq!(hunk_to_text(&a[0]), "@@ -1,3 +1,3 @@\n 1\n-2\n+X\n 3\n");
    let b = build("", "new\n", 1);
    let mut s = Session::new(&changes, vec![a, b]).expect("there are changes");
    assert_eq!(s.act(Action::HunkNo).next, Next::Ask);
    assert_eq!(s.act(Action::HunkNo).next, Next::Finished);
    match s.apply_at(&changes, 0, "1\n2\n3\n") {
        Some(Ok(FileOp::Write { path, text })) => {
            assert_eq!(path, "mod/a.txt");
            assert_eq!(text, "1\n2\n3\n");
        }
        _ => panic!("the file is written as it was"),
    }
    match s.apply_at(&changes, 1, "") {
        Some(Ok(FileOp::Remove { path })) => assert_eq!(path, "mod/b.txt"),
        _ => panic!("the added file is deleted"),
    }
    assert!(s.apply_at(&changes, 2, "").is_none());
}

#[test]
fn accepting_everything_keeps_the_modified_tree() {
    let changes =
        Changes::detect("orig", "mod", &strings(&["a.txt"]), &strings(&["a.txt", "b.txt"]));
    let patches = vec![build("1\n2\n3\n", "1\nX\n3\n", 1), build("", "new\n", 1)];
    let mut s = Session::new(&changes, patches).expect("there are changes");
    s.act(Action::FileYes);
    s.act(Action::FileYes);
    assert!(s.finished());
    match s.apply_at(&changes, 0, "1\n2\n3\n") {
        Some(Ok(FileOp::Write { path, text })) => {
            assert_eq!(path, "mod/a.txt");
            assert_eq!(text, "1\nX\n3\n");
        }
        _ => panic!("the file is written as modified"),
    }
    assert!(matches!(s.apply_at(&changes, 1, ""), Some(Ok(FileOp::Keep))));
}

#[test]
fn a_removal_is_kept_or_undone() {
    let changes = Changes::detect("orig", "mod", &strings(&["gone.txt"]), &strings(&[]));
    let content = "bye\n";
    let mut s =
        Session::new(&changes, vec![build(content, "", 3)]).expect("there are changes");
    let f = s.begin().expect("the session goes on");
    assert_eq!(f.kind, Kind::Removed);
    assert_eq!(f.total, 1);
    assert_eq!(s.act(Action::HunkYes).next, Next::Finished);
    assert!(matches!(s.apply_at(&changes, 0, content), Some(Ok(FileOp::Keep))));
    let mut s =
        Session::new(&changes, vec![build(content, "", 3)]).expect("there are changes");
    assert_eq!(s.act(Action::HunkNo).next, Next::Finished);
    match s.apply_at(&changes, 0, content) {
        Some(Ok(FileOp::Copy { from, to })) => {
            assert_eq!(from, "orig/gone.txt");
            assert_eq!(to, "mod/gone.txt");
        }
        _ => panic!("the file is copied back"),
    }
    let s = Session::new(&changes, vec![build(content, "", 3)]).expect("there are changes");
    assert!(matches!(s.apply_at(&changes, 0, content), Some(Ok(FileOp::Copy { .. }))));
}

#[test]
fn only_accepted_hunks_are_applied() {
    let hunks = build(A_OLD, A_NEW, 1);
    let mut row: VecMap<bool> = VecMap::new();
    row.set_flag(1, true);
    let kept = hollow(&hunks, &row);
    assert_eq!(kept.len(), 2);
    assert_eq!(kept[0].lines().len(), 0);
    assert_eq!(hunk_to_text(&kept[1]), hunk_to_text(&hunks[1]));
    let changes = Changes::detect("o", "m", &strings(&["a"]), &strings(&["a"]));
    match apply_change(&changes, &changes.changes[0], A_OLD, &kept, &row) {
        Ok(FileOp::Write { path, text }) => {
            assert_eq!(path, "m/a");
            assert_eq!(text, "a\nb\nc\nd\ne\nf\ng\nh\nI\nj\n");
        }
        _ => panic!("the accepted hunk applies"),
    }
    let empty: Vec<Hunk> = Vec::new();
    assert_eq!(hollow(&empty, &row).len(), 0);
}

#[test]
fn a_patch_that_does_not_apply_is_an_error() {
    let changes = Changes::detect("o", "m", &strings(&["a"]), &strings(&["a"]));
    let mut s = Session::new(&changes, vec![build(A_OLD, A_NEW, 1)]).expect("changes");
    s.act(Action::FileYes);
    assert!(matches!(s.apply_at(&changes, 0, "something\nelse\n"), Some(Err(_))));
}

#[test]
fn the_answers_of_a_change_can_be_read() {
    let (_, mut s) = two_files();
    s.act(Action::Next);
    s.act(Action::HunkYes);
    let row = s.answers(0).expect("the change is there");
    assert_eq!(row.len(), 2);
    assert!(!row.get(0));
    assert!(row.get(1));
    assert_eq!(s.answers(1).expect("the change is there").len(), 0);
    assert!(s.answers(2).is_none());
    assert!(s.hunks(2).is_none());
}

#[test]
fn a_replaced_hunk_is_accepted_and_passed() {
    let (_, mut s) = two_files();
    s.act(Action::Next);
    let other = build("x\n", "y\n", 0).remove(0);
    let reply = s.replace_hunk(other).expect("the cursor points at a hunk");
    assert_eq!(reply.next, Next::Ask);
    assert!(reply.clear_header);
    assert_eq!(reply.notice, None);
    assert_eq!(s.step(), Step { change: 1, hunk: 0 });
    assert_eq!(s.prev_step(), Step { change: 0, hunk: 1 });
    assert!(!s.resolution(0, 0));
    assert!(s.resolution(0, 1));
    let hunks = s.hunks(0).expect("the change is there");
    assert_eq!(hunks.len(), 2);
    assert_eq!(hunk_to_text(&hunks[1]), "@@ -1 +1 @@\n-x\n+y\n");
    s.act(Action::Quit);
    assert!(s.replace_hunk(Hunk::empty()).is_none());
}

#[test]
fn notices_and_errors_are_put_in_words() {
    assert_eq!(Notice::CannotEdit.message(), "Sorry, cannot edit this hunk");
    assert_eq!(Notice::CannotSplit.message(), "Sorry, cannot split this hunk");
    assert_eq!(EditError::NoHunk.message(), "Sorry, cannot edit this hunk");
    assert_eq!(EditError::NotOneHunk.message(), "Sorry, the edit must hold one hunk");
    assert_eq!(
        EditError::Parse("bad".to_string()).message(),
        "Sorry, the edited hunk cannot be read: bad"
    );
    assert_eq!(
        EditError::DoesNotApply("error applying hunk #1".to_string()).message(),
        "Sorry, the edited hunk does not apply: error applying hunk #1"
    );
}
