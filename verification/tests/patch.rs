use diffpatch::hunk::{reverse_if, Hunk, Line, LineKind};
use diffpatch::patch::{apply, build, colorize, parse, PatchError};
use diffpatch::render::{hunk_to_text, patch_to_text};
use diffpatch::split::{split_hunk, split_hunk_at};

#[test]
fn identical_texts_give_no_hunks() {
    assert_eq!(build("1\n2\n3\n", "1\n2\n3\n", 3).len(), 0);
    assert_eq!(build("", "", 3).len(), 0);
}

#[test]
fn no_hunks_leave_the_text() {
    let hunks: Vec<Hunk> = Vec::new();
    match apply("1\n2\n3\n", &hunks) {
        Ok(text) => assert_eq!(text, "1\n2\n3\n"),
        Err(_) => panic!("a patch without hunks applies"),
    }
}

#[test]
fn one_changed_line_gives_one_hunk() {
    let hunks = build("1\n2\n3\n", "1\nX\n3\n", 1);
    assert_eq!(hunks.len(), 1);
    assert_eq!(hunk_to_text(&hunks[0]), "@@ -1,3 +1,3 @@\n 1\n-2\n+X\n 3\n");
    assert_eq!(hunks[0].old_start(), 1);
    assert_eq!(hunks[0].old_len(), 3);
    assert_eq!(hunks[0].new_start(), 1);
    assert_eq!(hunks[0].new_len(), 3);
    assert_eq!(hunks[0].lines().len(), 4);
    assert_eq!(hunks[0].lines()[1].kind, LineKind::Delete);
    assert_eq!(hunks[0].lines()[1].text, "2\n");
}

#[test]
fn context_length_is_kept() {
    let hunks = build("1\n2\n3\n4\n5\n", "1\n2\nX\n4\n5\n", 0);
    assert_eq!(hunks.len(), 1);
    assert_eq!(hunk_to_text(&hunks[0]), "@@ -3 +3 @@\n-3\n+X\n");
}

#[test]
fn applying_the_patch_gives_the_modified_text() {
    let original = "a\nb\nc\nd\ne\nf\ng\nh\n";
    let modified = "a\nB\nc\nd\ne\nf\nG\nh\n";
    let hunks = build(original, modified, 1);
    assert_eq!(hunks.len(), 2);
    match apply(original, &hunks) {
        Ok(text) => assert_eq!(text, modified),
        Err(_) => panic!("the patch applies to its original"),
    }
}

#[test]
fn empty_hunks_change_nothing() {
    let original = "a\nb\nc\n";
    let mut hunks = build(original, "a\nB\nc\n", 1);
    hunks[0] = Hunk::empty();
    assert_eq!(patch_to_text(&hunks), "");
    match apply(original, &hunks) {
        Ok(text) => assert_eq!(text, original),
        Err(_) => panic!("an empty hunk applies"),
    }
}

#[test]
fn a_stale_patch_does_not_apply() {
    let hunks = build("a\nb\nc\n", "a\nB\nc\n", 1);
    match apply("x\ny\nz\n", &hunks) {
        Ok(_) => panic!("the hunk matches nowhere"),
        Err(PatchError::Apply(message)) => assert_eq!(message, "error applying hunk #1"),
        Err(PatchError::Parse(_)) => panic!("the patch is well written"),
    }
}

#[test]
fn missing_newline_is_written_out() {
    let hunks = build("a\nb", "a\nc", 3);
    assert_eq!(hunks.len(), 1);
    assert_eq!(
        hunk_to_text(&hunks[0]),
        "@@ -1,2 +1,2 @@\n a\n-b\n\\ No newline at end of file\n+c\n\\ No newline at end of file\n"
    );
    match apply("a\nb", &hunks) {
        Ok(text) => assert_eq!(text, "a\nc"),
        Err(_) => panic!("the patch applies to its original"),
    }
}

#[test]
fn parse_reads_what_was_written() {
    let hunks = build("1\n2\n3\n", "1\nX\n3\n", 1);
    let text = hunk_to_text(&hunks[0]);
    match parse(&text) {
        Ok(read) => {
            assert_eq!(read.len(), 1);
            assert_eq!(hunk_to_text(&read[0]), text);
        }
        Err(_) => panic!("the text is a hunk"),
    }
}

#[test]
fn parse_rejects_a_wrong_count() {
    match parse("@@ -1,3 +1,3 @@\n 1\n-2\n+X\n") {
        Ok(_) => panic!("the header promises more lines"),
        Err(PatchError::Parse(message)) => {
            assert_eq!(message, "error parsing patch at byte 0: hunk header does not match hunk")
        }
        Err(PatchError::Apply(_)) => panic!("nothing was applied"),
    }
}

#[test]
fn hunk_new_counts_its_lines() {
    let lines = vec![Line::context("a\n"), Line::delete("b\n"), Line::insert("c\n"), Line::insert("d\n")];
    match Hunk::new(5, 7, lines) {
        Some(h) => {
            assert_eq!(h.old_len(), 2);
            assert_eq!(h.new_len(), 3);
            assert_eq!(hunk_to_text(&h), "@@ -5,2 +7,3 @@\n a\n-b\n+c\n+d\n");
        }
        None => panic!("the ranges fit"),
    }
    assert!(Hunk::new(usize::MAX, 0, vec![Line::delete("b\n")]).is_none());
}

#[test]
fn reverse_swaps_the_sides() {
    let hunks = build("1\n2\n3\n", "1\nX\nY\n3\n", 1);
    let r = hunks[0].reverse();
    assert_eq!(hunk_to_text(&r), "@@ -1,4 +1,3 @@\n 1\n+2\n-X\n-Y\n 3\n");
    assert_eq!(hunk_to_text(&reverse_if(&hunks[0], true)), hunk_to_text(&r));
    assert_eq!(hunk_to_text(&reverse_if(&hunks[0], false)), hunk_to_text(&hunks[0]));
    let c = hunks[0].clone();
    assert_eq!(hunk_to_text(&c), hunk_to_text(&hunks[0]));
}

#[test]
fn split_gives_one_hunk_for_each_run() {
    let original = "a\nb\nc\nd\ne\n";
    let modified = "a\nB\nc\nD\ne\n";
    let hunks = build(original, modified, 1);
    assert_eq!(hunks.len(), 1);
    assert_eq!(hunk_to_text(&hunks[0]), "@@ -1,5 +1,5 @@\n a\n-b\n+B\n c\n-d\n+D\n e\n");
    let pieces = split_hunk(&hunks[0]);
    assert_eq!(pieces.len(), 2);
    assert_eq!(hunk_to_text(&pieces[0]), "@@ -1,2 +1,2 @@\n a\n-b\n+B\n");
    assert_eq!(hunk_to_text(&pieces[1]), "@@ -3,3 +3,3 @@\n c\n-d\n+D\n e\n");
}

#[test]
fn split_pieces_apply_like_the_hunk() {
    let original = "a\nb\nc\nd\ne\nf\ng\n";
    let modified = "a\nB\nc\nd\nE\nE2\nf\ng\n";
    let mut hunks = build(original, modified, 2);
    assert_eq!(hunks.len(), 1);
    let whole = match apply(original, &hunks) {
        Ok(text) => text,
        Err(_) => panic!("the patch applies to its original"),
    };
    assert_eq!(split_hunk_at(&mut hunks, 0), 2);
    assert_eq!(hunks.len(), 2);
    match apply(original, &hunks) {
        Ok(text) => assert_eq!(text, whole),
        Err(_) => panic!("the pieces apply to the original"),
    }
    assert_eq!(whole, modified);
}

#[test]
fn split_pieces_apply_one_by_one() {
    let original = "a\nb\nc\nd\ne\n";
    let modified = "a\nB\nc\nD\ne\n";
    let mut hunks = build(original, modified, 1);
    assert_eq!(split_hunk_at(&mut hunks, 0), 2);
    let second = vec![Hunk::empty(), hunks[1].clone()];
    match apply(original, &second) {
        Ok(text) => assert_eq!(text, "a\nb\nc\nD\ne\n"),
        Err(_) => panic!("the second piece applies alone"),
    }
    let first = vec![hunks[0].clone(), Hunk::empty()];
    match apply(original, &first) {
        Ok(text) => assert_eq!(text, "a\nB\nc\nd\ne\n"),
        Err(_) => panic!("the first piece applies alone"),
    }
}

#[test]
fn a_single_run_cannot_be_split() {
    let mut hunks = build("1\n2\n3\n", "1\nX\n3\n", 1);
    let before = hunk_to_text(&hunks[0]);
    assert_eq!(split_hunk_at(&mut hunks, 0), 1);
    assert_eq!(hunks.len(), 1);
    assert_eq!(hunk_to_text(&hunks[0]), before);
    assert_eq!(split_hunk_at(&mut hunks, 5), 1);
    assert_eq!(hunks.len(), 1);
}

#[test]
fn split_keeps_the_other_hunks() {
    let original = "a\nb\nc\nd\ne\n1\n2\n3\n4\n5\n6\n7\n8\nz\n";
    let modified = "a\nB\nc\nD\ne\n1\n2\n3\n4\n5\n6\n7\n8\nZ\n";
    let mut hunks = build(original, modified, 1);
    assert_eq!(hunks.len(), 2);
    let last = hunk_to_text(&hunks[1]);
    assert_eq!(split_hunk_at(&mut hunks, 0), 2);
    assert_eq!(hunks.len(), 3);
    assert_eq!(hunk_to_text(&hunks[2]), last);
}

#[test]
fn colorize_keeps_the_text_between_escapes() {
    let plain = "@@ -1,3 +1,3 @@\n 1\n-2\n+X\n 3\n";
    let colored = colorize(plain);
    assert_ne!(colored, plain);
    assert!(colored.contains("\x1b["));
    assert!(colored.contains("-2"));
    assert_eq!(colorize("@@ nonsense"), "@@ nonsense");
}
