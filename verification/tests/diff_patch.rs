use diffpatch::changes::Kind;
use diffpatch::config::{Interface, Options};
use diffpatch::diff_patch::{rows_of, write_header, Action, DiffPatch, Key, Step, STEP_HUNK_LAST};
use diffpatch::patch::build;

#[test]
fn the_ended_cursor_points_nowhere() {
    let s = Step::invalid();
    assert_eq!(s.change, usize::MAX);
    assert_eq!(s.hunk, usize::MAX);
    assert_eq!(s.hunk, STEP_HUNK_LAST);
    let s = Step::default();
    assert_eq!(s, Step { change: 0, hunk: 0 });
}

#[test]
fn characters_ask_for_actions() {
    assert_eq!(Action::from_char('y'), Some(Action::HunkYes));
    assert_eq!(Action::from_char('n'), Some(Action::HunkNo));
    assert_eq!(Action::from_char('a'), Some(Action::FileYes));
    assert_eq!(Action::from_char('d'), Some(Action::FileNo));
    assert_eq!(Action::from_char('s'), Some(Action::Split));
    assert_eq!(Action::from_char('e'), Some(Action::Edit));
    assert_eq!(Action::from_char('q'), Some(Action::Quit));
    assert_eq!(Action::from_char('l'), Some(Action::Clear));
    assert_eq!(Action::from_char('x'), None);
    assert_eq!(Action::from_char('Y'), None);
    assert_eq!(Action::from_char('\n'), None);
}

#[test]
fn lines_ask_for_actions() {
    assert_eq!(Action::from_str("y"), Some(Action::HunkYes));
    assert_eq!(Action::from_str("q"), Some(Action::Quit));
    assert_eq!(Action::from_str("\x1b[D"), Some(Action::Prev));
    assert_eq!(Action::from_str("\x1b[A"), Some(Action::Prev));
    assert_eq!(Action::from_str("\x1b[C"), Some(Action::Next));
    assert_eq!(Action::from_str("\x1b[B"), Some(Action::Next));
    assert_eq!(Action::from_str("\x1b[E"), None);
    assert_eq!(Action::from_str(""), None);
    assert_eq!(Action::from_str("yy"), None);
    assert_eq!(Action::from_str("yes"), None);
    assert_eq!(Action::from_str("z"), None);
}

#[test]
fn keys_ask_for_actions() {
    assert_eq!(Action::from_key(Key::Char('y')), Some(Action::HunkYes));
    assert_eq!(Action::from_key(Key::Char('?')), None);
    assert_eq!(Action::from_key(Key::Ctrl('c')), Some(Action::Exit));
    assert_eq!(Action::from_key(Key::Ctrl('l')), Some(Action::Clear));
    assert_eq!(Action::from_key(Key::Ctrl('x')), None);
    assert_eq!(Action::from_key(Key::Left), Some(Action::Prev));
    assert_eq!(Action::from_key(Key::Up), Some(Action::Prev));
    assert_eq!(Action::from_key(Key::Right), Some(Action::Next));
    assert_eq!(Action::from_key(Key::Down), Some(Action::Next));
    assert_eq!(Action::from_key(Key::Other), None);
}

#[test]
fn the_heading_names_the_file_twice() {
    assert_eq!(
        write_header(Some("src/a.rs"), Some("src/a.rs")),
        "\x1b[1;37m--- src/a.rs\n+++ src/a.rs\n\x1b[0m"
    );
    assert_eq!(write_header(None, Some("b")), "\x1b[1;37m+++ b\n\x1b[0m");
    assert_eq!(write_header(Some("a"), None), "\x1b[1;37m--- a\n\x1b[0m");
    assert_eq!(write_header(None, None), "\x1b[1;37m\x1b[0m");
}

#[test]
fn the_question_counts_from_one() {
    assert_eq!(
        DiffPatch::ask_action(1, 2, Kind::Modified),
        "\x1b[1;34m(1/2) Stage this hunk [y,n,q,a,d,e]? \x1b[0m"
    );
    assert_eq!(
        DiffPatch::ask_action(1, 1, Kind::Removed),
        "\x1b[1;34m(1/1) Stage deletion [y,n,q,a,d,e]? \x1b[0m"
    );
    assert_eq!(
        DiffPatch::ask_action(10, 120, Kind::Added),
        "\x1b[1;34m(10/120) Stage addition [y,n,q,a,d,e]? \x1b[0m"
    );
}

#[test]
fn errors_are_red() {
    assert_eq!(
        DiffPatch::write_error("Sorry, cannot split this hunk"),
        "\x1b[1;31mSorry, cannot split this hunk\x1b[0m\n"
    );
}

#[test]
fn the_screen_is_cleared_from_the_top() {
    assert_eq!(DiffPatch::clear_all(), "\x1b[2J\x1b[1;1H");
}

#[test]
fn rows_are_erased_upwards() {
    assert_eq!(DiffPatch::erase_last_lines(10, 3), "\x1b[7;1H\x1b[J");
    assert_eq!(DiffPatch::erase_last_lines(3, 3), "\x1b[0;1H\x1b[J");
    assert_eq!(DiffPatch::erase_last_lines(3, 70000), "\x1b[0;1H\x1b[J");
    assert_eq!(DiffPatch::erase_last_lines(65535, 1), "\x1b[65534;1H\x1b[J");
}

#[test]
fn without_a_terminal_nothing_is_raw() {
    let mut o = Options::default();
    o.interface = Interface::InlineClear;
    let d = DiffPatch::new(o, false);
    assert!(!d.raw);
    assert!(!d.options.immediate_command);
    assert_eq!(d.options.interface, Interface::Direct);
    assert_eq!(d.uncleared_lines, (0, 0));
    assert_eq!(d.term_size(Some((80, 24))), (u16::MAX, u16::MAX));
    let d = DiffPatch::new(Options::default(), true);
    assert!(d.raw);
    assert!(d.options.immediate_command);
    assert_eq!(d.term_size(Some((80, 24))), (80, 24));
    assert_eq!(d.term_size(None), (u16::MAX, u16::MAX));
    let mut o = Options::default();
    o.immediate_command = false;
    assert!(!DiffPatch::new(o, true).raw);
}

#[test]
fn rows_are_counted_without_escapes() {
    assert_eq!(rows_of("\x1b[1;37m--- a\n+++ a\n\x1b[0m", 80), Some(2));
    assert_eq!(rows_of("\x1b[1;37m--- abcdef\n\x1b[0m", 5), Some(2));
    assert_eq!(rows_of("abc", 80), Some(0));
    assert_eq!(rows_of("abc", 0), None);
}

#[test]
fn a_step_writes_heading_and_hunk() {
    let hunks = build("1\n2\n3\n", "1\nX\n3\n", 1);
    let mut o = Options::default();
    o.interface = Interface::InlineClear;
    let mut d = DiffPatch::new(o, true);
    let text = match d.step(true, "a.txt", Some(&hunks[0]), 80) {
        Some(text) => text,
        None => panic!("the rows can be counted"),
    };
    assert!(text.starts_with("\x1b[1;37m--- a.txt\n+++ a.txt\n\x1b[0m"));
    assert!(text.contains("@@ -1,3 +1,3 @@"));
    assert_eq!(d.uncleared_lines, (2, 5));
    assert_eq!(d.clear(false), Some(6));
    assert_eq!(d.uncleared_lines, (2, 0));
    let text = match d.step(false, "a.txt", None, 80) {
        Some(text) => text,
        None => panic!("the rows can be counted"),
    };
    assert_eq!(text, "");
    assert_eq!(d.uncleared_lines, (2, 0));
    assert_eq!(d.clear(true), Some(3));
    assert_eq!(d.uncleared_lines, (0, 0));
    assert!(d.step(true, "a.txt", None, 0).is_none());
}

#[test]
fn nothing_is_erased_unless_asked_for() {
    let hunks = build("1\n2\n3\n", "1\nX\n3\n", 1);
    let mut d = DiffPatch::new(Options::default(), true);
    assert!(d.step(true, "a.txt", Some(&hunks[0]), 80).is_some());
    assert_eq!(d.uncleared_lines, (2, 5));
    assert_eq!(d.clear(true), None);
    assert_eq!(d.uncleared_lines, (2, 5));
}

#[test]
fn reversed_hunks_are_shown_reversed() {
    let hunks = build("1\n2\n3\n", "1\nX\n3\n", 1);
    let mut o = Options::default();
    o.reversed = true;
    let mut d = DiffPatch::new(o, false);
    let text = match d.step(false, "a.txt", Some(&hunks[0]), 80) {
        Some(text) => text,
        None => panic!("the rows can be counted"),
    };
    let minus = text.find("-X").expect("the new line is shown as removed");
    let plus = text.find("+2").expect("the old line is shown as added");
    assert!(plus < minus);
}

#[test]
fn recorded_texts_are_written_one_after_the_other() {
    let mut d = DiffPatch::new(Options::default(), false);
    assert_eq!(d.record(Some("head\n"), Some("a\nb\n"), 80), Some("head\na\nb\n".to_string()));
    assert_eq!(d.uncleared_lines, (1, 2));
    assert_eq!(d.record(None, Some("123456789\n"), 4), Some("123456789\n".to_string()));
    assert_eq!(d.uncleared_lines, (1, 3));
    assert_eq!(d.record(Some("x\ny\nz\n"), None, 4), Some("x\ny\nz\n".to_string()));
    assert_eq!(d.uncleared_lines, (3, 3));
    assert_eq!(d.record(None, None, 4), Some(String::new()));
    assert_eq!(d.uncleared_lines, (3, 3));
    assert_eq!(d.record(Some("x\n"), None, 0), None);
    assert_eq!(d.uncleared_lines, (3, 3));
}
