//! DataWeave-aware syntax highlighting, distinct from the generic
//! structural colorizer (`colorize`), which handles data *output*. This is
//! for text that is DWL source, most importantly the source snippet `dw`
//! echoes inside its own error messages (e.g. `5| payload.items filter`).

use vstd::prelude::*;
use vstd::string::StrSliceExecFns;
use crate::colorize::{ansi_stripped, strip_ansi, is_ascii_digit, lemma_strip_rendering};
use crate::lex::{
    Lang, lexeme, runs, is_keyword, is_ident_start_spec, is_ident_continue_spec, ident_end,
    string_end_exec, number_end_exec, line_end_exec, block_end_exec, is_alphabetic,
    is_alphanumeric, lemma_lexeme_bounds, lemma_scan_text, lemma_scan_slices,
    lemma_slices_no_esc, runs_are_slices, no_adjacent_plain, lemma_scan_no_adjacent_plain,
};
use crate::span::{SpanStyle, StyledSpan, render_ansi, rendering, spans_view, spans_text, esc};
use crate::text::chars_of;

verus! {

/// Whether `c` can start an identifier: a letter or `_`.
pub fn is_ident_start(c: char) -> (b: bool)
    ensures
        b == is_ident_start_spec(c),
{
    is_alphabetic(c) || c == '_'
}

/// Whether `c` can continue an identifier: a letter, a digit or `_`.
pub fn is_ident_continue(c: char) -> (b: bool)
    ensures
        b == is_ident_continue_spec(c),
{
    is_alphanumeric(c) || c == '_'
}

/// Whether `s[a..b]` spells `word`.
fn slice_is(s: &Vec<char>, a: usize, b: usize, word: &str) -> (r: bool)
    requires
        a <= b <= s@.len(),
    ensures
        r == (s@.subrange(a as int, b as int) == word@),
{
    let len = word.unicode_len();
    if b - a != len {
        return false;
    }
    let mut k: usize = 0;
    while k < len
        invariant
            len == word@.len(),
            b - a == len,
            a <= b <= s@.len(),
            k <= len,
            forall|x: int| 0 <= x < k ==> s@[a + x] == word@[x],
        decreases len - k,
    {
        if s[a + k] != word.get_char(k) {
            assert(s@.subrange(a as int, b as int)[k as int] != word@[k as int]);
            return false;
        }
        k = k + 1;
    }
    assert(s@.subrange(a as int, b as int) =~= word@);
    true
}

/// Whether `s[a..b]` is a DataWeave keyword.
fn keyword_at(s: &Vec<char>, a: usize, b: usize) -> (r: bool)
    requires
        a <= b <= s@.len(),
    ensures
        r == is_keyword(s@.subrange(a as int, b as int)),
{
    slice_is(s, a, b, "output") || slice_is(s, a, b, "input") || slice_is(s, a, b, "var")
        || slice_is(s, a, b, "fun") || slice_is(s, a, b, "if") || slice_is(s, a, b, "else")
        || slice_is(s, a, b, "do") || slice_is(s, a, b, "match") || slice_is(s, a, b, "case")
        || slice_is(s, a, b, "type") || slice_is(s, a, b, "ns") || slice_is(s, a, b, "import")
        || slice_is(s, a, b, "as") || slice_is(s, a, b, "is") || slice_is(s, a, b, "unless")
        || slice_is(s, a, b, "using") || slice_is(s, a, b, "null") || slice_is(s, a, b, "true")
        || slice_is(s, a, b, "false") || slice_is(s, a, b, "and") || slice_is(s, a, b, "or")
        || slice_is(s, a, b, "not") || slice_is(s, a, b, "dw")
}

/// Index just past the identifier characters that start at `j`.
fn ident_end_exec(s: &Vec<char>, j: usize) -> (e: usize)
    requires
        j <= s@.len(),
    ensures
        e == ident_end(s@, j as int),
        j <= e <= s@.len(),
{
    let n = s.len();
    let mut k = j;
    while k < n && is_ident_continue(s[k])
        invariant
            n == s@.len(),
            j <= k <= n,
            ident_end(s@, k as int) == ident_end(s@, j as int),
        decreases n - k,
    {
        k = k + 1;
    }
    k
}

/// The token of DataWeave source that starts at `i`.
pub(crate) fn dw_lexeme(s: &Vec<char>, i: usize) -> (r: (usize, Option<SpanStyle>))
    requires
        i < s.len(),
    ensures
        r.0 == lexeme(Lang::DataWeave, s@, i as int).0,
        r.1 == lexeme(Lang::DataWeave, s@, i as int).1,
        i < r.0 <= s@.len(),
{
    proof {
        lemma_lexeme_bounds(Lang::DataWeave, s@, i as int);
    }
    let n = s.len();
    let c = s[i];
    if c == '"' {
        (string_end_exec(s, i + 1), Some(SpanStyle::Green))
    } else if c == '/' && i + 1 < n && s[i + 1] == '/' {
        (line_end_exec(s, i), Some(SpanStyle::Dimmed))
    } else if c == '/' && i + 1 < n && s[i + 1] == '*' {
        (block_end_exec(s, i + 2), Some(SpanStyle::Dimmed))
    } else if is_ascii_digit(c) {
        (number_end_exec(s, i), Some(SpanStyle::Cyan))
    } else if is_ident_start(c) {
        let e = ident_end_exec(s, i + 1);
        if keyword_at(s, i, e) {
            (e, Some(SpanStyle::Magenta))
        } else {
            (e, None)
        }
    } else if c == '{' || c == '}' || c == '[' || c == ']' || c == '(' || c == ')' || c == ','
        || c == ':' || c == '.' {
        (i + 1, Some(SpanStyle::Dimmed))
    } else {
        (i + 1, None)
    }
}

/// Tokenizes DWL source into styled spans: keywords magenta, string
/// literals green, numbers cyan, comments dimmed, structural punctuation
/// dimmed, identifiers and operators plain.
///
/// ANSI sequences already present in `source` (as in `dw`'s own error
/// output) are stripped first, so that only plain text is highlighted and
/// the bytes of someone else's sequences are never wrapped in new ones.
/// The spans spell out the stripped source exactly.
pub fn tokenize(source: &str) -> (r: Vec<StyledSpan>)
    ensures
        spans_view(r@) == runs(Lang::DataWeave, ansi_stripped(source@)),
        spans_text(spans_view(r@)) == ansi_stripped(source@),
        runs_are_slices(ansi_stripped(source@), spans_view(r@)),
        no_adjacent_plain(spans_view(r@)),
{
    let plain = strip_ansi(source);
    let chars = chars_of(plain.as_str());
    proof {
        lemma_scan_text(Lang::DataWeave, chars@, 0, 0);
        lemma_scan_slices(Lang::DataWeave, chars@, 0, 0);
        lemma_scan_no_adjacent_plain(Lang::DataWeave, chars@, 0, 0);
        assert(chars@.subrange(0, chars@.len() as int) =~= chars@);
    }
    crate::lex::cut_runs(Lang::DataWeave, &chars)
}

/// Highlights DWL source as an ANSI-coded string for terminal output.
/// Stripping the ANSI sequences from the result gives back the source
/// without its own sequences, whenever that holds no stray escape
/// character.
pub fn highlight(source: &str) -> (r: String)
    ensures
        exists|lit: Seq<bool>|
            lit.len() == runs(Lang::DataWeave, ansi_stripped(source@)).len() && r@
                == #[trigger] rendering(runs(Lang::DataWeave, ansi_stripped(source@)), lit),
        !ansi_stripped(source@).contains(esc()) ==> ansi_stripped(r@) == ansi_stripped(source@),
{
    let spans = tokenize(source);
    let r = render_ansi(spans.as_slice());
    proof {
        let p = ansi_stripped(source@);
        let lit = choose|lit: Seq<bool>|
            lit.len() == spans@.len() && r@ == #[trigger] rendering(spans_view(spans@), lit);
        if !p.contains(esc()) {
            lemma_scan_slices(Lang::DataWeave, p, 0, 0);
            lemma_slices_no_esc(p, runs(Lang::DataWeave, p));
            lemma_strip_rendering(runs(Lang::DataWeave, p), lit);
        }
    }
    r
}

} // verus!
