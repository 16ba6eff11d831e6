use news::text::split_lines;

#[test]
fn splits_lines_at_newlines() {
    assert_eq!(split_lines("a\nb\nc"), vec!["a", "b", "c"]);
}

#[test]
fn trailing_newline_yields_no_empty_line() {
    assert_eq!(split_lines("a\nb\n"), vec!["a", "b"]);
    assert_eq!(split_lines("\n"), vec![""]);
}

#[test]
fn empty_text_has_no_lines() {
    assert_eq!(split_lines(""), Vec::<String>::new());
}

#[test]
fn carriage_return_before_newline_is_dropped() {
    assert_eq!(split_lines("a\r\nb\rc\r"), vec!["a", "b\rc\r"]);
}
