use diffpatch::count_lines::{stripped_size, CountLines};

#[test]
fn check_size() {
    assert_eq!(stripped_size(b"\x1b[31m"), 0);
    assert_eq!(stripped_size(b"\x1b[31mhi"), 2);
    assert_eq!(stripped_size(b"\x1b[31mHello World"), 11);
    assert_eq!(stripped_size(b"\x1b[31mHello World\x1b[39m"), 11);
}

#[test]
fn plain_text_counts_every_byte() {
    assert_eq!(stripped_size(b""), 0);
    assert_eq!(stripped_size(b"Hello World"), 11);
}

#[test]
fn sequence_with_intermediate_bytes_is_invisible() {
    assert_eq!(stripped_size(b"\x1b[1;37 qab"), 2);
}

#[test]
fn unfinished_sequence_swallows_the_rest() {
    assert_eq!(stripped_size(b"ab\x1bcd"), 2);
    assert_eq!(stripped_size(b"ab\x1b[12"), 2);
}

#[test]
fn colored_text_is_as_long_as_plain() {
    let colored = b"\x1b[1;31mHello World\x1b[0m";
    assert_eq!(stripped_size(colored), stripped_size(b"Hello World"));
}

#[test]
fn newlines_end_rows() {
    let mut c = CountLines::new(80);
    c.write(b"one\ntwo\n");
    assert_eq!(c.take_lineno(), 2);
}

#[test]
fn text_without_newline_fills_no_row() {
    let mut c = CountLines::new(80);
    c.write(b"one");
    assert_eq!(c.take_lineno(), 0);
}

#[test]
fn long_lines_wrap() {
    let mut c = CountLines::new(4);
    c.write(b"123456789\n");
    assert_eq!(c.take_lineno(), 3);
}

#[test]
fn a_full_row_wraps_only_when_more_follows() {
    let mut c = CountLines::new(4);
    c.write(b"1234\n");
    assert_eq!(c.take_lineno(), 1);
    let mut c = CountLines::new(4);
    c.write(b"12345\n");
    assert_eq!(c.take_lineno(), 2);
}

#[test]
fn escapes_do_not_wrap() {
    let mut c = CountLines::new(4);
    c.write(b"\x1b[31m1234\x1b[0m\n");
    assert_eq!(c.take_lineno(), 1);
}

#[test]
fn column_carries_over_writes() {
    let mut c = CountLines::new(4);
    c.write(b"123");
    c.write(b"45\n");
    assert_eq!(c.take_lineno(), 2);
}

#[test]
fn take_lineno_starts_again() {
    let mut c = CountLines::new(10);
    c.write(b"a\nb\nc\n");
    assert_eq!(c.take_lineno(), 3);
    assert_eq!(c.take_lineno(), 0);
    c.write(b"d\n");
    assert_eq!(c.take_lineno(), 1);
}
