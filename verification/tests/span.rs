use blazewvr::span::{render_ansi, SpanStyle, StyledSpan};
use colored::Colorize;

#[test]
fn render_ansi_concatenates_plain_text_unchanged() {
    colored::control::set_override(true);
    let spans = vec![
        StyledSpan::new("a", SpanStyle::Plain),
        StyledSpan::new("b", SpanStyle::Plain),
    ];
    assert_eq!(render_ansi(&spans), "ab");
}

#[test]
fn render_ansi_wraps_each_style() {
    colored::control::set_override(true);
    assert_eq!(
        render_ansi(&[StyledSpan::new("x", SpanStyle::Green)]),
        "x".green().to_string()
    );
    assert_eq!(
        render_ansi(&[StyledSpan::new("x", SpanStyle::Cyan)]),
        "x".cyan().to_string()
    );
    assert_eq!(
        render_ansi(&[StyledSpan::new("x", SpanStyle::Dimmed)]),
        "x".dimmed().to_string()
    );
    assert_eq!(
        render_ansi(&[StyledSpan::new("x", SpanStyle::Magenta)]),
        "x".magenta().to_string()
    );
}

#[test]
fn render_ansi_of_empty_spans_is_empty() {
    assert_eq!(render_ansi(&[]), "");
}

// ---- further cases ----

#[test]
fn render_ansi_uses_the_expected_sequences() {
    colored::control::set_override(true);
    let spans = vec![
        StyledSpan::new("g", SpanStyle::Green),
        StyledSpan::new("c", SpanStyle::Cyan),
        StyledSpan::new("d", SpanStyle::Dimmed),
        StyledSpan::new("m", SpanStyle::Magenta),
        StyledSpan::new("p", SpanStyle::Plain),
    ];
    assert_eq!(
        render_ansi(&spans),
        "\x1b[32mg\x1b[0m\x1b[36mc\x1b[0m\x1b[2md\x1b[0m\x1b[35mm\x1b[0mp"
    );
}

#[test]
fn render_ansi_reopens_style_after_inner_reset() {
    colored::control::set_override(true);
    assert_eq!(
        render_ansi(&[StyledSpan::new("a\x1b[0mb", SpanStyle::Green)]),
        "\x1b[32ma\x1b[0m\x1b[32mb\x1b[0m"
    );
}

#[test]
fn styled_span_new_keeps_text_and_style() {
    let s = StyledSpan::new("t", SpanStyle::Cyan);
    assert_eq!(s.text, "t");
    assert_eq!(s.style, SpanStyle::Cyan);
}
