//! Styled text runs shared by the structural colorizer and the DataWeave
//! highlighter, and their rendering as ANSI-coded terminal text.

use colored::Colorize;
use vstd::prelude::*;
use vstd::string::StringExecFns;

verus! {

/// A highlighting intent, independent of how it is finally rendered.
#[derive(Debug, Clone, Copy, PartialEq, Eq, Structural)]
pub enum SpanStyle {
    Plain,
    Green,
    Cyan,
    Dimmed,
    Magenta,
}

/// One highlighted run of text.
#[derive(Debug, Clone, PartialEq, Eq)]
pub struct StyledSpan {
    pub text: String,
    pub style: SpanStyle,
}

impl View for StyledSpan {
    type V = (Seq<char>, SpanStyle);

    open spec fn view(&self) -> (Seq<char>, SpanStyle) {
        (self.text@, self.style)
    }
}

/// The abstract contents of a list of spans: text and style of each run.
pub open spec fn spans_view(v: Seq<StyledSpan>) -> Seq<(Seq<char>, SpanStyle)> {
    v.map_values(|s: StyledSpan| s@)
}

/// The concatenated text of a list of runs.
pub open spec fn spans_text(v: Seq<(Seq<char>, SpanStyle)>) -> Seq<char>
    decreases v.len(),
{
    if v.len() == 0 {
        Seq::empty()
    } else {
        spans_text(v.drop_last()) + v.last().0
    }
}

/// The escape character that starts every ANSI control sequence.
pub open spec fn esc() -> char {
    '\x1b'
}

/// The SGR sequence that resets all styling: `ESC [ 0 m`.
pub open spec fn sgr_reset() -> Seq<char> {
    seq![esc(), '[', '0', 'm']
}

/// The SGR sequence that switches a style on: green is foreground 32,
/// cyan 36, magenta 35, dimmed is the intensity attribute 2.
pub open spec fn sgr_open(style: SpanStyle) -> Seq<char> {
    match style {
        SpanStyle::Plain => Seq::empty(),
        SpanStyle::Green => seq![esc(), '[', '3', '2', 'm'],
        SpanStyle::Cyan => seq![esc(), '[', '3', '6', 'm'],
        SpanStyle::Dimmed => seq![esc(), '[', '2', 'm'],
        SpanStyle::Magenta => seq![esc(), '[', '3', '5', 'm'],
    }
}

/// `t` with the style sequence `open` re-inserted after every reset
/// sequence it contains, so that styling survives nested resets.
pub open spec fn escape_resets(t: Seq<char>, open: Seq<char>) -> Seq<char>
    decreases t.len(),
{
    if t.len() == 0 {
        t
    } else if t.len() >= 4 && t.take(4) == sgr_reset() {
        sgr_reset() + open + escape_resets(t.skip(4), open)
    } else {
        seq![t[0]] + escape_resets(t.skip(1), open)
    }
}

/// `t` wrapped in the ANSI sequences of `style`.
pub open spec fn sgr_wrap(style: SpanStyle, t: Seq<char>) -> Seq<char> {
    sgr_open(style) + escape_resets(t, sgr_open(style)) + sgr_reset()
}

/// How a run of text prints: wrapped in its style's sequences when the
/// terminal is colorized (`lit`) and the style is not plain, else as is.
pub open spec fn painted(style: SpanStyle, t: Seq<char>, lit: bool) -> Seq<char> {
    if lit && style != SpanStyle::Plain {
        sgr_wrap(style, t)
    } else {
        t
    }
}

/// The printed form of a list of runs, where `lit[k]` says whether run
/// `k` was colorized.
pub open spec fn rendering(spans: Seq<(Seq<char>, SpanStyle)>, lit: Seq<bool>) -> Seq<char>
    decreases spans.len(),
{
    if spans.len() == 0 {
        Seq::empty()
    } else {
        rendering(spans.drop_last(), lit) + painted(
            spans.last().1,
            spans.last().0,
            lit[spans.len() - 1],
        )
    }
}

/// `rendering` reads only the first `spans.len()` choices.
pub proof fn lemma_rendering_choices(
    spans: Seq<(Seq<char>, SpanStyle)>,
    a: Seq<bool>,
    b: Seq<bool>,
)
    requires
        forall|k: int| 0 <= k < spans.len() ==> a[k] == b[k],
    ensures
        rendering(spans, a) == rendering(spans, b),
    decreases spans.len(),
{
    if spans.len() > 0 {
        lemma_rendering_choices(spans.drop_last(), a, b);
    }
}

/// Prints `text` green through `colored`: `"..".green().to_string()`.
/// Its source writes the text unchanged when colorizing is off, else the
/// style sequence, the text with the style re-opened after every inner
/// reset, and a reset. Whether colorizing is on comes from the process
/// environment and `colored::control`; the contract covers both outcomes
/// and assumes the setting does not change during the call.
#[verifier::external_body]
fn paint_green(text: &str) -> (r: String)
    ensures
        r@ == text@ || r@ == sgr_wrap(SpanStyle::Green, text@),
{
    text.green().to_string()
}

/// Prints `text` cyan through `colored`: `"..".cyan().to_string()`; see
/// `paint_green` for what is claimed.
#[verifier::external_body]
fn paint_cyan(text: &str) -> (r: String)
    ensures
        r@ == text@ || r@ == sgr_wrap(SpanStyle::Cyan, text@),
{
    text.cyan().to_string()
}

/// Prints `text` dimmed through `colored`: `"..".dimmed().to_string()`;
/// see `paint_green` for what is claimed.
#[verifier::external_body]
pub(crate) fn paint_dimmed(text: &str) -> (r: String)
    ensures
        r@ == text@ || r@ == sgr_wrap(SpanStyle::Dimmed, text@),
{
    text.dimmed().to_string()
}

/// Prints `text` magenta through `colored`: `"..".magenta().to_string()`;
/// see `paint_green` for what is claimed.
#[verifier::external_body]
fn paint_magenta(text: &str) -> (r: String)
    ensures
        r@ == text@ || r@ == sgr_wrap(SpanStyle::Magenta, text@),
{
    text.magenta().to_string()
}

/// Prints one run in its style: as is when plain, else through `colored`,
/// colorized or not.
pub fn paint(text: &str, style: SpanStyle) -> (r: String)
    ensures
        r@ == painted(style, text@, false) || r@ == painted(style, text@, true),
{
    match style {
        SpanStyle::Plain => String::from_str(text),
        SpanStyle::Green => paint_green(text),
        SpanStyle::Cyan => paint_cyan(text),
        SpanStyle::Dimmed => paint_dimmed(text),
        SpanStyle::Magenta => paint_magenta(text),
    }
}

impl StyledSpan {
    pub fn new(text: &str, style: SpanStyle) -> (r: StyledSpan)
        ensures
            r.text@ == text@,
            r.style == style,
    {
        StyledSpan { text: String::from_str(text), style }
    }
}

/// Renders `spans` as one ANSI-coded string for terminal output: each
/// run printed in its style, in order.
pub fn render_ansi(spans: &[StyledSpan]) -> (r: String)
    ensures
        exists|lit: Seq<bool>|
            lit.len() == spans@.len() && r@ == #[trigger] rendering(spans_view(spans@), lit),
{
    let mut out = String::new();
    let ghost mut lit: Seq<bool> = Seq::empty();
    let n = spans.len();
    for i in 0..n
        invariant
            n == spans@.len(),
            lit.len() == i,
            out@ == rendering(spans_view(spans@.take(i as int)), lit),
    {
        let piece = paint(spans[i].text.as_str(), spans[i].style);
        let ghost b: bool = piece@ != spans@[i as int].text@;
        proof {
            let pre = spans_view(spans@.take(i as int));
            let next = spans_view(spans@.take(i + 1));
            assert(next.drop_last() =~= pre);
            lemma_rendering_choices(pre, lit, lit.push(b));
            lit = lit.push(b);
        }
        out.append(piece.as_str());
    }
    assert(spans@.take(n as int) =~= spans@);
    out
}

} // verus!
