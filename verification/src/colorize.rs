//! Generic structural colorizer applied to both `dw` output and error
//! text, regardless of the script's declared output format: it colors by
//! token shape rather than implementing a per-format highlighter.

use vstd::prelude::*;
use crate::lex::{
    Lang, lexeme, runs, string_end_exec, number_end_exec, lemma_lexeme_bounds, lemma_scan_text, runs_are_slices, lemma_scan_slices, lemma_slices_no_esc,
    lemma_spans_text_append, no_adjacent_plain, data_punct_char, lemma_scan_no_adjacent_plain,
};
use crate::span::{
    SpanStyle, StyledSpan, render_ansi, rendering, painted, spans_view, spans_text, esc,
    sgr_open, sgr_reset, escape_resets,
};
use crate::text::{chars_of, push_char};

verus! {

// ---- stripping ANSI sequences ----

/// The text that remains of `s` once every control sequence `ESC [ ... m`
/// is removed, where `in_csi` says that such a sequence is already open
/// (it then runs up to and including the next `m`, or to the end).
pub open spec fn strip_from(s: Seq<char>, in_csi: bool) -> Seq<char>
    decreases s.len(),
{
    if s.len() == 0 {
        Seq::empty()
    } else if in_csi {
        strip_from(s.skip(1), s[0] != 'm')
    } else if s[0] == esc() && s.len() > 1 && s[1] == '[' {
        strip_from(s.skip(2), true)
    } else {
        seq![s[0]] + strip_from(s.skip(1), false)
    }
}

/// `s` without its ANSI control sequences.
pub open spec fn ansi_stripped(s: Seq<char>) -> Seq<char> {
    strip_from(s, false)
}

/// Strips the ANSI escape sequences `ESC [ ... m` from `s`.
pub fn strip_ansi(s: &str) -> (r: String)
    ensures
        r@ == ansi_stripped(s@),
{
    let chars = chars_of(s);
    let n = chars.len();
    let mut out = String::new();
    let mut i: usize = 0;
    let mut in_csi = false;
    assert(chars@.skip(0) =~= chars@);
    while i < n
        invariant
            n == chars@.len(),
            chars@ == s@,
            i <= n,
            out@ + strip_from(chars@.skip(i as int), in_csi) == strip_from(chars@, false),
        decreases n - i,
    {
        let ghost rest = chars@.skip(i as int);
        if in_csi {
            assert(rest.skip(1) =~= chars@.skip(i + 1));
            if chars[i] == 'm' {
                in_csi = false;
            }
            i = i + 1;
        } else if chars[i] == '\x1b' && i + 1 < n && chars[i + 1] == '[' {
            assert(rest.skip(2) =~= chars@.skip(i + 2));
            in_csi = true;
            i = i + 2;
        } else {
            assert(rest.skip(1) =~= chars@.skip(i + 1));
            let ghost before = out@;
            push_char(&mut out, chars[i]);
            assert(out@ + strip_from(chars@.skip(i + 1), false) =~= before + strip_from(
                rest,
                false,
            ));
            i = i + 1;
        }
    }
    assert(chars@.skip(n as int) =~= Seq::<char>::empty());
    assert(out@ + Seq::<char>::empty() =~= out@);
    out
}

// ---- laws of stripping ----

/// Text without escape characters passes through stripping unchanged.
pub proof fn lemma_strip_clean_prefix(a: Seq<char>, b: Seq<char>)
    requires
        !a.contains(esc()),
    ensures
        strip_from(a + b, false) == a + strip_from(b, false),
    decreases a.len(),
{
    if a.len() == 0 {
        assert(a + b =~= b);
        assert(a + strip_from(b, false) =~= strip_from(b, false));
    } else {
        assert(a[0] != esc()) by {
            assert(a.contains(a[0]) ==> a[0] != esc());
        }
        assert(!a.skip(1).contains(esc())) by {
            if a.skip(1).contains(esc()) {
                let x = choose|x: int| 0 <= x < a.skip(1).len() && a.skip(1)[x] == esc();
                assert(a[x + 1] == esc());
            }
        }
        assert((a + b).skip(1) =~= a.skip(1) + b);
        assert((a + b)[0] == a[0]);
        lemma_strip_clean_prefix(a.skip(1), b);
        assert(a + strip_from(b, false) =~= seq![a[0]] + (a.skip(1) + strip_from(b, false)));
    }
}

/// Text without escape characters is its own stripped form.
pub proof fn lemma_strip_plain_text(t: Seq<char>)
    requires
        !t.contains(esc()),
    ensures
        ansi_stripped(t) == t,
{
    lemma_strip_clean_prefix(t, Seq::empty());
    assert(t + Seq::<char>::empty() =~= t);
    assert(t + strip_from(Seq::<char>::empty(), false) =~= t);
}

/// Inside an open control sequence, everything up to and including the
/// next `m` is dropped.
proof fn lemma_strip_csi_body(c: Seq<char>, b: Seq<char>)
    requires
        !c.contains('m'),
    ensures
        strip_from(c + seq!['m'] + b, true) == strip_from(b, false),
    decreases c.len(),
{
    if c.len() == 0 {
        assert((c + seq!['m'] + b).skip(1) =~= b);
    } else {
        assert(c[0] != 'm') by {
            assert(c.contains(c[0]));
        }
        assert(!c.skip(1).contains('m')) by {
            if c.skip(1).contains('m') {
                let x = choose|x: int| 0 <= x < c.skip(1).len() && c.skip(1)[x] == 'm';
                assert(c[x + 1] == 'm');
            }
        }
        assert((c + seq!['m'] + b).skip(1) =~= c.skip(1) + seq!['m'] + b);
        lemma_strip_csi_body(c.skip(1), b);
    }
}

/// A whole control sequence `ESC [ body m` is dropped.
proof fn lemma_strip_sequence(body: Seq<char>, b: Seq<char>)
    requires
        !body.contains('m'),
    ensures
        strip_from(seq![esc(), '['] + body + seq!['m'] + b, false) == strip_from(b, false),
{
    let whole = seq![esc(), '['] + body + seq!['m'] + b;
    assert(whole[0] == esc() && whole[1] == '[');
    assert(whole.skip(2) =~= body + seq!['m'] + b);
    lemma_strip_csi_body(body, b);
}

proof fn lemma_open_is_sequence(style: SpanStyle, b: Seq<char>)
    requires
        style != SpanStyle::Plain,
    ensures
        strip_from(sgr_open(style) + b, false) == strip_from(b, false),
{
    let body = match style {
        SpanStyle::Green => seq!['3', '2'],
        SpanStyle::Cyan => seq!['3', '6'],
        SpanStyle::Dimmed => seq!['2'],
        _ => seq!['3', '5'],
    };
    assert(sgr_open(style) =~= seq![esc(), '['] + body + seq!['m']);
    assert(!body.contains('m')) by {
        if body.contains('m') {
            let x = choose|x: int| 0 <= x < body.len() && body[x] == 'm';
        }
    }
    assert(sgr_open(style) + b =~= seq![esc(), '['] + body + seq!['m'] + b);
    lemma_strip_sequence(body, b);
}

proof fn lemma_reset_is_sequence(b: Seq<char>)
    ensures
        strip_from(sgr_reset() + b, false) == strip_from(b, false),
{
    let body = seq!['0'];
    assert(!body.contains('m')) by {
        if body.contains('m') {
            let x = choose|x: int| 0 <= x < body.len() && body[x] == 'm';
        }
    }
    assert(sgr_reset() + b =~= seq![esc(), '['] + body + seq!['m'] + b);
    lemma_strip_sequence(body, b);
}

/// Text without escape characters holds no reset sequence to re-open.
pub proof fn lemma_escape_resets_clean(t: Seq<char>, open: Seq<char>)
    requires
        !t.contains(esc()),
    ensures
        escape_resets(t, open) == t,
    decreases t.len(),
{
    if t.len() > 0 {
        assert(t[0] != esc()) by {
            assert(t.contains(t[0]));
        }
        assert(!t.skip(1).contains(esc())) by {
            if t.skip(1).contains(esc()) {
                let x = choose|x: int| 0 <= x < t.skip(1).len() && t.skip(1)[x] == esc();
                assert(t[x + 1] == esc());
            }
        }
        if t.len() >= 4 {
            assert(t.take(4)[0] != sgr_reset()[0]);
        }
        lemma_escape_resets_clean(t.skip(1), open);
        assert(seq![t[0]] + t.skip(1) =~= t);
    }
}

/// Stripping a printed run gives back its text, when that text holds no
/// escape characters.
proof fn lemma_strip_painted(style: SpanStyle, t: Seq<char>, lit: bool, rest: Seq<char>)
    requires
        !t.contains(esc()),
    ensures
        strip_from(painted(style, t, lit) + rest, false) == t + strip_from(rest, false),
{
    if lit && style != SpanStyle::Plain {
        lemma_escape_resets_clean(t, sgr_open(style));
        let o = sgr_open(style);
        assert(painted(style, t, lit) + rest =~= o + (t + (sgr_reset() + rest)));
        lemma_open_is_sequence(style, t + (sgr_reset() + rest));
        lemma_strip_clean_prefix(t, sgr_reset() + rest);
        lemma_reset_is_sequence(rest);
    } else {
        lemma_strip_clean_prefix(t, rest);
    }
}

/// `rendering` read from the front: the first run, then the rest.
proof fn lemma_rendering_front(spans: Seq<(Seq<char>, SpanStyle)>, lit: Seq<bool>)
    requires
        spans.len() > 0,
        lit.len() >= spans.len(),
    ensures
        rendering(spans, lit) == painted(spans[0].1, spans[0].0, lit[0]) + rendering(
            spans.skip(1),
            lit.skip(1),
        ),
    decreases spans.len(),
{
    if spans.len() == 1 {
        assert(spans.drop_last() =~= Seq::<(Seq<char>, SpanStyle)>::empty());
        assert(spans.skip(1) =~= Seq::<(Seq<char>, SpanStyle)>::empty());
        let e: Seq<char> = Seq::empty();
        assert(rendering(spans.drop_last(), lit) == e);
        assert(rendering(spans.skip(1), lit.skip(1)) == e);
        assert(e + painted(spans[0].1, spans[0].0, lit[0]) =~= painted(
            spans[0].1,
            spans[0].0,
            lit[0],
        ) + e);
    } else {
        lemma_rendering_front(spans.drop_last(), lit);
        assert(spans.skip(1).drop_last() =~= spans.drop_last().skip(1));
        assert(spans.skip(1).last() == spans.last());
        assert(lit.skip(1)[spans.skip(1).len() - 1] == lit[spans.len() - 1]);
    }
}

/// Stripping the printed form of runs whose texts hold no escape
/// characters gives back their concatenated text, whichever runs were
/// colorized.
pub proof fn lemma_strip_rendering(spans: Seq<(Seq<char>, SpanStyle)>, lit: Seq<bool>)
    requires
        forall|k: int| 0 <= k < spans.len() ==> !(#[trigger] spans[k].0).contains(esc()),
        lit.len() >= spans.len(),
    ensures
        ansi_stripped(rendering(spans, lit)) == spans_text(spans),
    decreases spans.len(),
{
    if spans.len() == 0 {
    } else {
        let rest = spans.skip(1);
        assert forall|k: int| 0 <= k < rest.len() implies !(#[trigger] rest[k].0).contains(
            esc(),
        ) by {
            assert(rest[k] == spans[k + 1]);
        }
        lemma_strip_rendering(rest, lit.skip(1));
        lemma_rendering_front(spans, lit);
        assert(!spans[0].0.contains(esc()));
        lemma_strip_painted(spans[0].1, spans[0].0, lit[0], rendering(rest, lit.skip(1)));
        let head = seq![spans[0]];
        assert(spans =~= head + rest);
        lemma_spans_text_append(head, rest);
        assert(head.drop_last() =~= Seq::<(Seq<char>, SpanStyle)>::empty());
        assert(spans_text(head.drop_last()) =~= Seq::<char>::empty());
        assert(spans_text(head) =~= spans[0].0);
    }
}

// ---- tokenizing ----

/// Whether `c` is an ASCII decimal digit (`char::is_ascii_digit`).
pub fn is_ascii_digit(c: char) -> (b: bool)
    ensures
        b == crate::lex::is_digit(c),
{
    '0' <= c && c <= '9'
}

/// The token of structured output that starts at `i`.
pub(crate) fn data_lexeme(s: &Vec<char>, i: usize) -> (r: (usize, Option<SpanStyle>))
    requires
        i < s.len(),
    ensures
        r.0 == lexeme(Lang::Data, s@, i as int).0,
        r.1 == lexeme(Lang::Data, s@, i as int).1,
        i < r.0 <= s@.len(),
        data_punct_char(s@[i as int]) ==> r.0 == i + 1 && r.1 == Some(SpanStyle::Dimmed),
{
    proof {
        lemma_lexeme_bounds(Lang::Data, s@, i as int);
    }
    let c = s[i];
    if c == '"' {
        (string_end_exec(s, i + 1), Some(SpanStyle::Green))
    } else if is_ascii_digit(c) || (c == '-' && i + 1 < s.len() && is_ascii_digit(s[i + 1])) {
        (number_end_exec(s, i + 1), Some(SpanStyle::Cyan))
    } else if c == '{' || c == '}' || c == '[' || c == ']' || c == ':' || c == ',' {
        (i + 1, Some(SpanStyle::Dimmed))
    } else {
        (i + 1, None)
    }
}

/// Tokenizes `text` into styled spans: quoted strings green, numbers
/// cyan, structural punctuation (`{}[]:,`) dimmed, everything else
/// plain. The spans spell out `text` exactly.
pub fn tokenize(text: &str) -> (r: Vec<StyledSpan>)
    ensures
        spans_view(r@) == runs(Lang::Data, text@),
        spans_text(spans_view(r@)) == text@,
        runs_are_slices(text@, spans_view(r@)),
        no_adjacent_plain(spans_view(r@)),
{
    let chars = chars_of(text);
    proof {
        lemma_scan_text(Lang::Data, chars@, 0, 0);
        lemma_scan_slices(Lang::Data, chars@, 0, 0);
        lemma_scan_no_adjacent_plain(Lang::Data, chars@, 0, 0);
        assert(chars@.subrange(0, chars@.len() as int) =~= chars@);
    }
    crate::lex::cut_runs(Lang::Data, &chars)
}

/// Colorizes `text`: quoted strings green, numbers cyan, structural
/// punctuation (`{}[]:,`) dimmed, everything else left as-is. Stripping
/// the ANSI sequences from the result gives back `text` whenever `text`
/// itself holds no escape character.
pub fn colorize(text: &str) -> (r: String)
    ensures
        exists|lit: Seq<bool>|
            lit.len() == runs(Lang::Data, text@).len() && r@ == #[trigger] rendering(
                runs(Lang::Data, text@),
                lit,
            ),
        !text@.contains(esc()) ==> ansi_stripped(r@) == text@,
{
    let spans = tokenize(text);
    let r = render_ansi(spans.as_slice());
    proof {
        let lit = choose|lit: Seq<bool>|
            lit.len() == spans@.len() && r@ == #[trigger] rendering(spans_view(spans@), lit);
        if !text@.contains(esc()) {
            lemma_scan_slices(Lang::Data, text@, 0, 0);
            lemma_slices_no_esc(text@, runs(Lang::Data, text@));
            lemma_strip_rendering(runs(Lang::Data, text@), lit);
        }
    }
    r
}

} // verus!
