use skyanswers::text::remove_extra_newlines;

#[test]
fn newline_runs_collapse_and_ends_trim() {
    assert_eq!(remove_extra_newlines("  a\n\n\nb\n "), "a\nb");
}

#[test]
fn single_newlines_are_kept() {
    assert_eq!(remove_extra_newlines("a\nb\nc"), "a\nb\nc");
}

#[test]
fn all_whitespace_becomes_empty() {
    assert_eq!(remove_extra_newlines(" \n\t \n "), "");
    assert_eq!(remove_extra_newlines(""), "");
}

#[test]
fn interior_spaces_are_untouched() {
    assert_eq!(remove_extra_newlines("a  b"), "a  b");
    assert_eq!(remove_extra_newlines("\t a  b \r\n"), "a  b");
}

#[test]
fn unicode_text_survives_normalization() {
    assert_eq!(remove_extra_newlines("  привет\n\n\nмир  "), "привет\nмир");
}
