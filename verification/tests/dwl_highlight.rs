use blazewvr::colorize::strip_ansi;
use blazewvr::lex::{is_alphabetic, is_alphanumeric};
use blazewvr::dwl_highlight::{highlight, is_ident_continue, is_ident_start, tokenize};
use blazewvr::span::{render_ansi, SpanStyle, StyledSpan};
use colored::Colorize;

#[test]
fn dwl_highlight_strips_to_original_text() {
    let src = r#"%dw 2.0
output application/json
// comment
---
if (payload.age > 17) "adult" else "minor""#;
    assert_eq!(strip_ansi(&highlight(src)), src);
}

#[test]
fn highlights_keywords_magenta() {
    colored::control::set_override(true);
    assert_eq!(highlight("output"), "output".magenta().to_string());
    assert_eq!(highlight("var"), "var".magenta().to_string());
}

#[test]
fn does_not_highlight_identifier_containing_keyword_as_substring() {
    colored::control::set_override(true);
    assert_eq!(highlight("outputs"), "outputs");
}

#[test]
fn highlights_strings_green() {
    colored::control::set_override(true);
    assert_eq!(highlight(r#""hello""#), "\"hello\"".green().to_string());
}

#[test]
fn highlights_numbers_cyan() {
    colored::control::set_override(true);
    assert_eq!(highlight("42"), "42".cyan().to_string());
    assert_eq!(highlight("2.5"), "2.5".cyan().to_string());
}

#[test]
fn highlights_line_comments_dimmed() {
    colored::control::set_override(true);
    assert_eq!(highlight("// hi"), "// hi".dimmed().to_string());
}

#[test]
fn line_comment_stops_at_newline() {
    let src = "// hi\nvar x = 1";
    let stripped = strip_ansi(&highlight(src));
    assert_eq!(stripped, src);
}

#[test]
fn highlights_block_comments_dimmed() {
    colored::control::set_override(true);
    assert_eq!(highlight("/* hi */"), "/* hi */".dimmed().to_string());
}

#[test]
fn dwl_highlight_unterminated_block_comment_consumes_rest_of_input() {
    let src = "var x /* never closed";
    assert_eq!(strip_ansi(&highlight(src)), src);
}

#[test]
fn highlights_punctuation_dimmed() {
    colored::control::set_override(true);
    assert_eq!(highlight("{"), "{".dimmed().to_string());
    assert_eq!(highlight("."), ".".dimmed().to_string());
}

#[test]
fn leaves_plain_identifiers_and_operators_uncolored() {
    colored::control::set_override(true);
    assert_eq!(highlight("payload"), "payload");
    assert_eq!(highlight("->"), "->");
}

#[test]
fn real_error_source_snippet_round_trips() {
    let src = "5| payload.items filter ((i) -> i.age > 17)";
    assert_eq!(strip_ansi(&highlight(src)), src);
}

#[test]
fn strips_pre_existing_ansi_before_highlighting() {
    let raw_from_dw = "\x1b[31m[ERROR] Error while executing the script:\x1b[0m";
    let plain = "[ERROR] Error while executing the script:";
    assert_eq!(strip_ansi(&highlight(raw_from_dw)), plain);
}

#[test]
fn dwl_highlight_tokenize_produces_the_expected_span_sequence() {
    assert_eq!(
        tokenize(r#"var x = "hi""#),
        vec![
            StyledSpan::new("var", SpanStyle::Magenta),
            StyledSpan::new(" x = ", SpanStyle::Plain),
            StyledSpan::new("\"hi\"", SpanStyle::Green),
        ]
    );
}

#[test]
fn tokenize_strips_ansi_before_scanning() {
    let raw_from_dw = "\x1b[31m[ERROR]\x1b[0m";
    assert_eq!(
        tokenize(raw_from_dw),
        vec![
            StyledSpan::new("[", SpanStyle::Dimmed),
            StyledSpan::new("ERROR", SpanStyle::Plain),
            StyledSpan::new("]", SpanStyle::Dimmed),
        ]
    );
}

#[test]
fn highlight_matches_render_ansi_of_tokenize() {
    let src = "var x = 1 // comment";
    assert_eq!(highlight(src), render_ansi(&tokenize(src)));
}

// ---- further cases ----

#[test]
fn block_comment_ends_after_its_closing_marker() {
    assert_eq!(
        tokenize("/* a */b"),
        vec![
            StyledSpan::new("/* a */", SpanStyle::Dimmed),
            StyledSpan::new("b", SpanStyle::Plain),
        ]
    );
}

#[test]
fn every_keyword_is_magenta_and_others_plain() {
    for kw in [
        "output", "input", "var", "fun", "if", "else", "do", "match", "case", "type", "ns",
        "import", "as", "is", "unless", "using", "null", "true", "false", "and", "or", "not",
        "dw",
    ] {
        assert_eq!(tokenize(kw), vec![StyledSpan::new(kw, SpanStyle::Magenta)]);
    }
    assert_eq!(tokenize("_var"), vec![StyledSpan::new("_var", SpanStyle::Plain)]);
    assert_eq!(tokenize("Output"), vec![StyledSpan::new("Output", SpanStyle::Plain)]);
}

#[test]
fn identifier_with_digits_is_one_token() {
    assert_eq!(
        tokenize("if2 if"),
        vec![
            StyledSpan::new("if2 ", SpanStyle::Plain),
            StyledSpan::new("if", SpanStyle::Magenta),
        ]
    );
}

#[test]
fn identifier_characters() {
    assert!(is_ident_start('a') && is_ident_start('_') && is_ident_start('é'));
    assert!(!is_ident_start('1') && !is_ident_start('-'));
    assert!(is_ident_continue('1') && is_ident_continue('_') && !is_ident_continue('.'));
}

#[test]
fn letters_digits_and_punctuation_are_told_apart() {
    assert!(is_alphabetic('q') && is_alphabetic('Q') && is_alphabetic('é'));
    assert!(!is_alphabetic('7') && !is_alphabetic(']') && !is_alphabetic(' '));
    assert!(is_alphanumeric('7') && is_alphanumeric('z') && is_alphanumeric('é'));
    assert!(!is_alphanumeric(']') && !is_alphanumeric('-') && !is_alphanumeric('\t'));
}

#[test]
fn no_two_adjacent_runs_are_both_plain() {
    for src in ["var x = 1 // c", "a + b * c", "fun f(a) = a ++ \"s\"", "x\ny\tz", ""] {
        let spans = tokenize(src);
        for w in spans.windows(2) {
            assert!(!(w[0].style == SpanStyle::Plain && w[1].style == SpanStyle::Plain));
        }
    }
}
