use hongdown::{
    escape_table_cell, escape_text, format_code_span, is_valid_code_span, normalize_whitespace,
};

#[test]
fn test_is_valid_code_span() {
    // Valid code spans
    assert!(is_valid_code_span("`foo`"));
    assert!(is_valid_code_span("`string \\| number`"));
    assert!(is_valid_code_span("``foo``"));
    assert!(is_valid_code_span("`` foo ` bar ``"));

    // Invalid code spans (missing closing backtick)
    assert!(!is_valid_code_span("`foo"));
    assert!(!is_valid_code_span("`string \\| number"));
    assert!(!is_valid_code_span("``foo`"));

    // Edge cases
    assert!(!is_valid_code_span(""));
    assert!(!is_valid_code_span("foo"));
    assert!(!is_valid_code_span("foo`"));
}

#[test]
fn code_span_needs_room_for_content() {
    assert!(!is_valid_code_span("``"));
    assert!(is_valid_code_span("`a`"));
    assert!(!is_valid_code_span("```a``"));
}

#[test]
fn escape_text_brackets_and_underscores() {
    // A closing bracket at the end of the text cannot close a link.
    assert_eq!(escape_text("[note]"), "\\[note]");
    assert_eq!(escape_text("[note](x)"), "\\[note\\](x)");
    assert_eq!(escape_text("a_b"), "a_b");
    assert_eq!(escape_text("_b"), "\\_b");
}

#[test]
fn escape_text_always_escaped() {
    assert_eq!(escape_text("a*b"), "a\\*b");
    assert_eq!(escape_text("C:\\dir"), "C:\\\\dir");
    assert_eq!(escape_text("use `x`"), "use \\`x\\`");
}

#[test]
fn escape_text_boundary_underscores() {
    assert_eq!(escape_text("a_"), "a\\_");
    assert_eq!(escape_text("a _b"), "a \\_b");
    assert_eq!(escape_text("snake_case_name"), "snake_case_name");
    assert_eq!(escape_text("été_été"), "été_été");
}

#[test]
fn escape_text_brackets_that_cannot_form_links() {
    assert_eq!(escape_text("end ["), "end [");
    assert_eq!(escape_text("[[wiki]]"), "[\\[wiki]]");
    assert_eq!(escape_text("]start"), "]start");
    assert_eq!(escape_text("a]b"), "a]b");
    assert_eq!(escape_text("a](b"), "a\\](b");
    assert_eq!(escape_text("a][b"), "a\\]\\[b");
    assert_eq!(escape_text("a]](b"), "a]](b");
}

#[test]
fn escape_text_leaves_other_characters() {
    assert_eq!(escape_text("# 1. > - + | ~ < & !"), "# 1. > - + | ~ < & !");
    assert_eq!(escape_text(""), "");
}

#[test]
fn normalize_whitespace_collapses_runs() {
    assert_eq!(normalize_whitespace("  a \n\t b  c\r\n"), "a b c");
    assert_eq!(normalize_whitespace("one"), "one");
    assert_eq!(normalize_whitespace(" \n "), "");
    assert_eq!(normalize_whitespace(""), "");
}

#[test]
fn format_code_span_delimiters() {
    assert_eq!(format_code_span("a `b` c"), "``a `b` c``");
    assert_eq!(format_code_span("`x"), "`` `x ``");
    assert_eq!(format_code_span("x`"), "`` x` ``");
    assert_eq!(format_code_span("plain"), "`plain`");
    assert_eq!(format_code_span("a ``` b"), "````a ``` b````");
    assert_eq!(format_code_span(""), "``");
    assert_eq!(format_code_span(" padded "), "`  padded  `");
    assert_eq!(format_code_span("a "), "` a  `");
    assert_eq!(format_code_span("   "), "`   `");
}

#[test]
fn escape_table_cell_pipes() {
    assert_eq!(escape_table_cell("a|b"), "a\\|b");
    assert_eq!(escape_table_cell("a\\|b"), "a\\|b");
    assert_eq!(escape_table_cell("||"), "\\|\\|");
    assert_eq!(escape_table_cell("end\\"), "end\\");
    assert_eq!(escape_table_cell("\\\\|"), "\\\\\\|");
    assert_eq!(escape_table_cell("plain"), "plain");
}

#[test]
fn normalize_whitespace_unicode_spaces() {
    assert_eq!(normalize_whitespace("a\u{3000}\u{a0}b"), "a b");
    assert_eq!(normalize_whitespace("x\u{2028}y"), "x y");
}
