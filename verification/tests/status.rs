use bruto_ide::build_report::{extract_error_line, format_status_error, status_hint};

#[test]
fn status_strips_parse_error_prefix() {
    assert_eq!(
        format_status_error("Parse error: line 6:1: expected ';', found 'var'"),
        "6:1: expected ';', found 'var'"
    );
}

#[test]
fn status_strips_bare_line_prefix() {
    assert_eq!(
        format_status_error("line 12:5: unexpected token: BEGIN"),
        "12:5: unexpected token: BEGIN"
    );
}

#[test]
fn status_passes_through_message_without_line_marker() {
    assert_eq!(
        format_status_error("ld: framework not found"),
        "ld: framework not found"
    );
}

#[test]
fn extracts_pascal_parser_line() {
    assert_eq!(
        extract_error_line("line 12:5: unexpected token: BEGIN"),
        Some(12)
    );
}

#[test]
fn extracts_when_prefixed_with_filename() {
    assert_eq!(
        extract_error_line("demo.pas: line 7:1: missing semicolon"),
        Some(7)
    );
}

#[test]
fn returns_none_when_no_line_in_message() {
    assert_eq!(extract_error_line("ld: framework not found"), None);
    assert_eq!(extract_error_line("line abc: bogus"), None);
}

#[test]
fn only_the_first_marker_counts() {
    assert_eq!(extract_error_line("line x, then line 3"), None);
    assert_eq!(extract_error_line("line 99999999999999999999999"), None);
    assert_eq!(extract_error_line("line 4"), Some(4));
    assert_eq!(extract_error_line(""), None);
}

#[test]
fn hint_follows_the_caret() {
    let error = Some((6usize, "Parse error:\n  line 6:1:\texpected ';'".to_string()));
    assert_eq!(status_hint(&error, 6), Some("6:1: expected ';'".to_string()));
    assert_eq!(status_hint(&error, 7), None);
    assert_eq!(status_hint(&None, 6), None);
}

#[test]
fn hint_starts_with_the_line() {
    let message = "demo.pas: line 7:1: missing semicolon";
    let line = extract_error_line(message).unwrap();
    assert!(format_status_error(message).starts_with(&line.to_string()));
}
