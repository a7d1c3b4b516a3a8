use blazewvr::colorize::{colorize, strip_ansi, tokenize};
use blazewvr::span::{render_ansi, SpanStyle, StyledSpan};
use colored::Colorize;

fn force_color() {
    colored::control::set_override(true);
}

#[test]
fn colorize_strips_to_original_text() {
    let text = r#"{"age": 21, "items": [1, 2.5, -3]}"#;
    assert_eq!(strip_ansi(&colorize(text)), text);
}

#[test]
fn colorizes_strings_green() {
    force_color();
    let out = colorize(r#""hello""#);
    assert_eq!(out, "\"hello\"".green().to_string());
}

#[test]
fn colorizes_numbers_cyan() {
    force_color();
    let out = colorize("42");
    assert_eq!(out, "42".cyan().to_string());
}

#[test]
fn colorizes_negative_and_decimal_numbers() {
    force_color();
    assert_eq!(colorize("-3"), "-3".cyan().to_string());
    assert_eq!(colorize("2.5"), "2.5".cyan().to_string());
}

#[test]
fn colorizes_punctuation_dimmed() {
    force_color();
    assert_eq!(colorize("{"), "{".dimmed().to_string());
    assert_eq!(colorize(","), ",".dimmed().to_string());
}

#[test]
fn leaves_bare_words_uncolored() {
    force_color();
    assert_eq!(colorize("payload"), "payload");
}

#[test]
fn colorize_handles_escaped_quotes_inside_strings() {
    let text = r#""she said \"hi\"""#;
    assert_eq!(strip_ansi(&colorize(text)), text);
}

#[test]
fn hyphen_not_followed_by_digit_is_not_a_number() {
    force_color();
    assert_eq!(colorize("a-b"), "a-b");
}

#[test]
fn unterminated_string_literal_consumes_rest_of_input() {
    let text = r#""never closed"#;
    assert_eq!(strip_ansi(&colorize(text)), text);
}

#[test]
fn colorize_tokenize_produces_the_expected_span_sequence() {
    assert_eq!(
        tokenize(r#"{"age": 21}"#),
        vec![
            StyledSpan::new("{", SpanStyle::Dimmed),
            StyledSpan::new("\"age\"", SpanStyle::Green),
            StyledSpan::new(":", SpanStyle::Dimmed),
            StyledSpan::new(" ", SpanStyle::Plain),
            StyledSpan::new("21", SpanStyle::Cyan),
            StyledSpan::new("}", SpanStyle::Dimmed),
        ]
    );
}

#[test]
fn tokenize_of_plain_text_is_a_single_plain_span() {
    assert_eq!(
        tokenize("payload"),
        vec![StyledSpan::new("payload", SpanStyle::Plain)]
    );
}

#[test]
fn colorize_matches_render_ansi_of_tokenize() {
    let text = r#"{"age": 21, "items": [1, 2.5, -3]}"#;
    assert_eq!(colorize(text), render_ansi(&tokenize(text)));
}

// ---- further cases ----

#[test]
fn tokenize_spans_spell_out_the_input() {
    let text = "x: [\"a\\\"b\", -1.5, true] // tail";
    let joined: String = tokenize(text).iter().map(|s| s.text.as_str()).collect();
    assert_eq!(joined, text);
}

#[test]
fn tokenize_of_empty_text_is_empty() {
    assert_eq!(tokenize(""), vec![]);
}

#[test]
fn tokenize_escaped_quote_stays_inside_the_string() {
    assert_eq!(
        tokenize(r#""a\"b" c"#),
        vec![
            StyledSpan::new(r#""a\"b""#, SpanStyle::Green),
            StyledSpan::new(" c", SpanStyle::Plain),
        ]
    );
}

#[test]
fn tokenize_trailing_backslash_inside_string() {
    assert_eq!(
        tokenize("\"ab\\"),
        vec![StyledSpan::new("\"ab\\", SpanStyle::Green)]
    );
}

#[test]
fn tokenize_number_takes_following_dots_and_digits() {
    assert_eq!(
        tokenize("1.2.3x"),
        vec![
            StyledSpan::new("1.2.3", SpanStyle::Cyan),
            StyledSpan::new("x", SpanStyle::Plain),
        ]
    );
}

#[test]
fn tokenize_lone_minus_at_end_is_plain() {
    assert_eq!(tokenize("-"), vec![StyledSpan::new("-", SpanStyle::Plain)]);
}

#[test]
fn colorized_string_wraps_in_green_sequences() {
    force_color();
    assert_eq!(colorize("\"x\""), "\x1b[32m\"x\"\x1b[0m");
}

#[test]
fn strip_ansi_removes_sequences_and_keeps_other_text() {
    assert_eq!(strip_ansi("\x1b[31mred\x1b[0m plain"), "red plain");
    assert_eq!(strip_ansi("a\x1bb"), "a\x1bb");
    assert_eq!(strip_ansi("x\x1b[1;2"), "x");
    assert_eq!(strip_ansi(""), "");
}

#[test]
fn strip_ansi_is_not_fooled_by_a_lone_escape() {
    assert_eq!(strip_ansi("\x1b\x1b[0m[1m"), "\x1b[1m");
}

#[test]
fn colorize_tokenize_never_puts_two_plain_runs_side_by_side() {
    for src in ["{\"a\": 1, b: -2}", "plain text only", "x[1]y", ""] {
        let spans = blazewvr::colorize::tokenize(src);
        for w in spans.windows(2) {
            assert!(!(w[0].style == blazewvr::span::SpanStyle::Plain
                && w[1].style == blazewvr::span::SpanStyle::Plain));
        }
    }
}
