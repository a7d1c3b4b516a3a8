use blazewvr::colorize::colorize;
use blazewvr::dwl_highlight::highlight;
use blazewvr::span::{render_ansi, SpanStyle, StyledSpan};

#[test]
fn colorize_without_color_is_the_text_itself() {
    colored::control::set_override(false);
    let text = r#"{"a": [1, -2]}"#;
    assert_eq!(colorize(text), text);
}

#[test]
fn highlight_without_color_is_the_stripped_source() {
    colored::control::set_override(false);
    assert_eq!(highlight("\x1b[1mvar x\x1b[0m"), "var x");
}

#[test]
fn render_ansi_without_color_is_the_plain_text() {
    colored::control::set_override(false);
    let spans = vec![
        StyledSpan::new("x", SpanStyle::Green),
        StyledSpan::new("y", SpanStyle::Dimmed),
    ];
    assert_eq!(render_ansi(&spans), "xy");
}
