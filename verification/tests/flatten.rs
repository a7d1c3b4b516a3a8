use blazewvr::flatten::flatten;

#[test]
fn strips_line_comments() {
    let src = "1 + 1 // add\n+ 2";
    assert_eq!(flatten(src), "1 + 1 + 2");
}

#[test]
fn strips_block_comments() {
    let src = "1 /* block\ncomment */ + 2";
    assert_eq!(flatten(src), "1 + 2");
}

#[test]
fn does_not_strip_comment_markers_inside_string_literals() {
    let src = r#"payload.url default "http://example.com""#;
    assert_eq!(flatten(src), r#"payload.url default "http://example.com""#);
}

#[test]
fn does_not_treat_block_marker_inside_string_as_comment() {
    let src = r#""a/*b" ++ "c*/d""#;
    assert_eq!(flatten(src), r#""a/*b" ++ "c*/d""#);
}

#[test]
fn flatten_handles_escaped_quotes_inside_strings() {
    let src = r#""she said \"hi // not a comment\"" ++ "tail""#;
    assert_eq!(
        flatten(src),
        r#""she said \"hi // not a comment\"" ++ "tail""#
    );
}

#[test]
fn collapses_multiple_newlines_and_whitespace() {
    let src = "%dw 2.0\noutput application/json\n\n\n---\npayload";
    assert_eq!(flatten(src), "%dw 2.0 output application/json --- payload");
}

#[test]
fn real_world_multiline_script_with_leading_comment() {
    let src = "%dw 2.0\noutput application/json\n// fetch adults only\n---\npayload.items filter ((i) -> i.age > 17) // trailing\n";
    assert_eq!(
        flatten(src),
        r#"%dw 2.0 output application/json --- payload.items filter ((i) -> i.age > 17)"#
    );
}

#[test]
fn line_comment_at_end_of_input_without_trailing_newline() {
    let src = "payload // trailing comment, no newline after";
    assert_eq!(flatten(src), "payload");
}

#[test]
fn flatten_unterminated_block_comment_consumes_rest_of_input() {
    let src = "payload /* never closed";
    assert_eq!(flatten(src), "payload");
}

// ---- further cases ----

#[test]
fn flatten_of_empty_and_blank_text_is_empty() {
    assert_eq!(flatten(""), "");
    assert_eq!(flatten(" \n\t\r\n "), "");
}

#[test]
fn flatten_result_is_single_line_without_double_spaces() {
    let src = "a\r\n  b\t\tc /* x\ny */ d // e\n  \"s\\\nt\"";
    let out = flatten(src);
    assert!(!out.contains('\n'));
    assert!(!out.contains("  "));
    assert!(!out.starts_with(' ') && !out.ends_with(' '));
    assert_eq!(out, "a b c d \"s\\ t\"");
}

#[test]
fn carriage_return_inside_line_comment_is_dropped() {
    assert_eq!(flatten("a // c\r\nb"), "a b");
}

#[test]
fn newlines_inside_strings_become_spaces() {
    assert_eq!(flatten("\"a\nb\""), "\"a b\"");
}

#[test]
fn comment_after_string_is_stripped() {
    assert_eq!(flatten("\"x\" // y"), "\"x\"");
}

#[test]
fn flatten_collapses_tabs_carriage_returns_and_unicode_spaces() {
    assert_eq!(flatten("a\t\tb\r\nc\u{3000}d\u{a0}e"), "a b c d e");
    assert_eq!(flatten("\t x \u{2028}"), "x");
}

#[test]
fn flatten_is_idempotent_on_examples() {
    for src in ["1 + 1 // add\n+ 2", "  a /* b */  c\t", r#""x  y" // z"#] {
        let once = flatten(src);
        assert_eq!(flatten(&once), once);
    }
}

#[test]
fn is_whitespace_agrees_with_std() {
    for c in (0u32..0x3100).filter_map(char::from_u32) {
        assert_eq!(blazewvr::flatten::is_whitespace(c), c.is_whitespace(), "{:?}", c);
    }
}
