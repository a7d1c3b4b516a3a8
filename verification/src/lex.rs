//! The token grammar shared by the two highlighters: where a string
//! literal, number, comment or identifier that starts at a position ends,
//! how a text is cut into styled runs, and the executable scanners that
//! find those ends.

use vstd::prelude::*;
use crate::span::{SpanStyle, StyledSpan, spans_view, spans_text, esc};
use crate::text::push_char;

verus! {

/// Which highlighter's token grammar applies.
#[derive(Clone, Copy)]
pub enum Lang {
    /// Generic structured output (JSON/XML/CSV-shaped text).
    Data,
    /// DataWeave source.
    DataWeave,
}

pub open spec fn is_digit(c: char) -> bool {
    '0' <= c && c <= '9'
}

pub open spec fn is_ascii_letter(c: char) -> bool {
    ('a' <= c && c <= 'z') || ('A' <= c && c <= 'Z')
}

/// The name for `char::is_alphabetic` on characters beyond ASCII.
pub uninterp spec fn char_is_alphabetic(c: char) -> bool;

/// The name for `char::is_alphanumeric` on characters beyond ASCII.
pub uninterp spec fn char_is_alphanumeric(c: char) -> bool;

/// Whether `c` is alphabetic: among ASCII characters exactly the letters,
/// beyond ASCII as `char::is_alphabetic` says.
pub open spec fn alphabetic(c: char) -> bool {
    if c <= '\x7f' {
        is_ascii_letter(c)
    } else {
        char_is_alphabetic(c)
    }
}

/// Whether `c` is alphanumeric: among ASCII characters exactly the
/// letters and digits, beyond ASCII as `char::is_alphanumeric` says.
pub open spec fn alphanumeric(c: char) -> bool {
    if c <= '\x7f' {
        is_ascii_letter(c) || is_digit(c)
    } else {
        char_is_alphanumeric(c)
    }
}

/// `char::is_alphabetic`: whether `c` has the Unicode `Alphabetic`
/// property. Among ASCII characters that property holds of the letters
/// `a`-`z` and `A`-`Z` only; beyond ASCII the contract names the result.
#[verifier::external_body]
pub fn is_alphabetic(c: char) -> (b: bool)
    ensures
        b == (if c <= '\x7f' {
            is_ascii_letter(c)
        } else {
            char_is_alphabetic(c)
        }),
{
    c.is_alphabetic()
}

/// `char::is_alphanumeric`: whether `c` is alphabetic or numeric (its
/// documentation: `is_alphabetic()` or `is_numeric()`). Among ASCII
/// characters those are the letters and the digits `0`-`9`; beyond ASCII
/// the contract names the result, and says that it holds of every
/// alphabetic character.
#[verifier::external_body]
pub fn is_alphanumeric(c: char) -> (b: bool)
    ensures
        b == (if c <= '\x7f' {
            is_ascii_letter(c) || is_digit(c)
        } else {
            char_is_alphanumeric(c)
        }),
        char_is_alphabetic(c) && c > '\x7f' ==> b,
{
    c.is_alphanumeric()
}

pub open spec fn is_ident_start_spec(c: char) -> bool {
    alphabetic(c) || c == '_'
}

pub open spec fn is_ident_continue_spec(c: char) -> bool {
    alphanumeric(c) || c == '_'
}

/// The DataWeave keywords.
pub open spec fn is_keyword(w: Seq<char>) -> bool {
    ||| w == "output"@
    ||| w == "input"@
    ||| w == "var"@
    ||| w == "fun"@
    ||| w == "if"@
    ||| w == "else"@
    ||| w == "do"@
    ||| w == "match"@
    ||| w == "case"@
    ||| w == "type"@
    ||| w == "ns"@
    ||| w == "import"@
    ||| w == "as"@
    ||| w == "is"@
    ||| w == "unless"@
    ||| w == "using"@
    ||| w == "null"@
    ||| w == "true"@
    ||| w == "false"@
    ||| w == "and"@
    ||| w == "or"@
    ||| w == "not"@
    ||| w == "dw"@
}

/// Index just past a string literal whose body starts at `j`: the first
/// unescaped `"` closes it (a `\` escapes the next character), or the
/// literal runs to the end of the text.
pub open spec fn string_end(s: Seq<char>, j: int) -> int
    decreases s.len() - j,
{
    if j >= s.len() {
        s.len() as int
    } else if s[j] == '\\' && j + 1 < s.len() {
        string_end(s, j + 2)
    } else if s[j] == '"' {
        j + 1
    } else {
        string_end(s, j + 1)
    }
}

/// Index just past the run of digits and dots that starts at `j`.
pub open spec fn number_end(s: Seq<char>, j: int) -> int
    decreases s.len() - j,
{
    if 0 <= j < s.len() && (is_digit(s[j]) || s[j] == '.') {
        number_end(s, j + 1)
    } else {
        j
    }
}

/// Index of the first newline at or after `j`, or the end of the text.
pub open spec fn line_end(s: Seq<char>, j: int) -> int
    decreases s.len() - j,
{
    if 0 <= j < s.len() && s[j] != '\n' {
        line_end(s, j + 1)
    } else {
        j
    }
}

/// Index just past the first `*/` at or after `j`, or the end of the text.
pub open spec fn block_end(s: Seq<char>, j: int) -> int
    decreases s.len() - j,
{
    if j >= s.len() {
        s.len() as int
    } else if s[j] == '*' && j + 1 < s.len() && s[j + 1] == '/' {
        j + 2
    } else {
        block_end(s, j + 1)
    }
}

/// Index just past the run of identifier characters that starts at `j`.
pub open spec fn ident_end(s: Seq<char>, j: int) -> int
    decreases s.len() - j,
{
    if 0 <= j < s.len() && is_ident_continue_spec(s[j]) {
        ident_end(s, j + 1)
    } else {
        j
    }
}

/// Structural punctuation of data output.
pub open spec fn is_structural_punct(c: char) -> bool {
    c == '{' || c == '}' || c == '[' || c == ']' || c == ':' || c == ','
}

/// Structural punctuation of DataWeave source.
pub open spec fn is_dw_punct(c: char) -> bool {
    c == '{' || c == '}' || c == '[' || c == ']' || c == '(' || c == ')' || c == ','
        || c == ':' || c == '.'
}

/// The token of structured output that starts at `i`: its end and its
/// style, or `None` for a character that stays plain. Quoted strings are
/// green, numbers (with an optional leading `-` before a digit) cyan,
/// punctuation dimmed.
pub open spec fn structural_lexeme(s: Seq<char>, i: int) -> (int, Option<SpanStyle>) {
    if s[i] == '"' {
        (string_end(s, i + 1), Some(SpanStyle::Green))
    } else if is_digit(s[i]) || (s[i] == '-' && i + 1 < s.len() && is_digit(s[i + 1])) {
        (number_end(s, i + 1), Some(SpanStyle::Cyan))
    } else if is_structural_punct(s[i]) {
        (i + 1, Some(SpanStyle::Dimmed))
    } else {
        (i + 1, None)
    }
}

/// The token of DataWeave source that starts at `i`: string literals
/// green, `//` and `/* */` comments dimmed, numbers cyan, keywords
/// magenta, other identifiers plain, punctuation dimmed.
pub open spec fn dw_lexeme(s: Seq<char>, i: int) -> (int, Option<SpanStyle>) {
    if s[i] == '"' {
        (string_end(s, i + 1), Some(SpanStyle::Green))
    } else if s[i] == '/' && i + 1 < s.len() && s[i + 1] == '/' {
        (line_end(s, i), Some(SpanStyle::Dimmed))
    } else if s[i] == '/' && i + 1 < s.len() && s[i + 1] == '*' {
        (block_end(s, i + 2), Some(SpanStyle::Dimmed))
    } else if is_digit(s[i]) {
        (number_end(s, i), Some(SpanStyle::Cyan))
    } else if is_ident_start_spec(s[i]) {
        let e = ident_end(s, i + 1);
        (e, if is_keyword(s.subrange(i, e)) { Some(SpanStyle::Magenta) } else { None })
    } else if is_dw_punct(s[i]) {
        (i + 1, Some(SpanStyle::Dimmed))
    } else {
        (i + 1, None)
    }
}

pub open spec fn lexeme(lang: Lang, s: Seq<char>, i: int) -> (int, Option<SpanStyle>) {
    match lang {
        Lang::Data => structural_lexeme(s, i),
        Lang::DataWeave => dw_lexeme(s, i),
    }
}

/// A plain run for `s[a..b]`, if it is not empty.
pub open spec fn plain_run(s: Seq<char>, a: int, b: int) -> Seq<(Seq<char>, SpanStyle)> {
    if a < b {
        seq![(s.subrange(a, b), SpanStyle::Plain)]
    } else {
        Seq::empty()
    }
}

/// The runs of `s` from position `i` on, where the pending plain text
/// began at `ps`: each styled token becomes a run of its own, and the
/// characters between styled tokens are gathered into one plain run.
pub open spec fn scan(lang: Lang, s: Seq<char>, i: int, ps: int) -> Seq<(Seq<char>, SpanStyle)>
    decreases s.len() - i,
{
    if i < 0 || i >= s.len() {
        plain_run(s, ps, s.len() as int)
    } else {
        let (e0, st) = lexeme(lang, s, i);
        let e = if i < e0 <= s.len() { e0 } else { i + 1 };
        match st {
            Some(style) => plain_run(s, ps, i) + seq![(s.subrange(i, e), style)] + scan(
                lang,
                s,
                e,
                e,
            ),
            None => scan(lang, s, e, ps),
        }
    }
}

/// All runs of `s`.
pub open spec fn runs(lang: Lang, s: Seq<char>) -> Seq<(Seq<char>, SpanStyle)> {
    scan(lang, s, 0, 0)
}

// ---- bounds of the token ends ----

pub proof fn lemma_string_end_bounds(s: Seq<char>, j: int)
    requires
        0 <= j <= s.len(),
    ensures
        j <= string_end(s, j) <= s.len(),
    decreases s.len() - j,
{
    if j < s.len() {
        if s[j] == '\\' && j + 1 < s.len() {
            lemma_string_end_bounds(s, j + 2);
        } else if s[j] != '"' {
            lemma_string_end_bounds(s, j + 1);
        }
    }
}

pub proof fn lemma_number_end_bounds(s: Seq<char>, j: int)
    requires
        0 <= j <= s.len(),
    ensures
        j <= number_end(s, j) <= s.len(),
    decreases s.len() - j,
{
    if j < s.len() && (is_digit(s[j]) || s[j] == '.') {
        lemma_number_end_bounds(s, j + 1);
    }
}

pub proof fn lemma_line_end_bounds(s: Seq<char>, j: int)
    requires
        0 <= j <= s.len(),
    ensures
        j <= line_end(s, j) <= s.len(),
    decreases s.len() - j,
{
    if j < s.len() && s[j] != '\n' {
        lemma_line_end_bounds(s, j + 1);
    }
}

pub proof fn lemma_block_end_bounds(s: Seq<char>, j: int)
    requires
        0 <= j <= s.len(),
    ensures
        j <= block_end(s, j) <= s.len(),
    decreases s.len() - j,
{
    if j < s.len() && !(s[j] == '*' && j + 1 < s.len() && s[j + 1] == '/') {
        lemma_block_end_bounds(s, j + 1);
    }
}

pub proof fn lemma_ident_end_bounds(s: Seq<char>, j: int)
    requires
        0 <= j <= s.len(),
    ensures
        j <= ident_end(s, j) <= s.len(),
    decreases s.len() - j,
{
    if j < s.len() && is_ident_continue_spec(s[j]) {
        lemma_ident_end_bounds(s, j + 1);
    }
}

// ---- executable scanners ----

pub fn string_end_exec(s: &Vec<char>, j: usize) -> (e: usize)
    requires
        j <= s@.len(),
    ensures
        e == string_end(s@, j as int),
        j <= e <= s@.len(),
{
    let n = s.len();
    let mut k = j;
    while k < n
        invariant
            n == s@.len(),
            j <= k <= n,
            string_end(s@, k as int) == string_end(s@, j as int),
        decreases n - k,
    {
        if s[k] == '\\' && k + 1 < n {
            k = k + 2;
        } else if s[k] == '"' {
            proof {
                lemma_string_end_bounds(s@, j as int);
            }
            return k + 1;
        } else {
            k = k + 1;
        }
    }
    k
}

pub fn number_end_exec(s: &Vec<char>, j: usize) -> (e: usize)
    requires
        j <= s@.len(),
    ensures
        e == number_end(s@, j as int),
        j <= e <= s@.len(),
{
    let n = s.len();
    let mut k = j;
    while k < n && (('0' <= s[k] && s[k] <= '9') || s[k] == '.')
        invariant
            n == s@.len(),
            j <= k <= n,
            number_end(s@, k as int) == number_end(s@, j as int),
        decreases n - k,
    {
        k = k + 1;
    }
    k
}

pub fn line_end_exec(s: &Vec<char>, j: usize) -> (e: usize)
    requires
        j <= s@.len(),
    ensures
        e == line_end(s@, j as int),
        j <= e <= s@.len(),
        forall|k: int| j <= k < e ==> s@[k] != '\n',
        e < s@.len() ==> s@[e as int] == '\n',
{
    let n = s.len();
    let mut k = j;
    while k < n && s[k] != '\n'
        invariant
            n == s@.len(),
            j <= k <= n,
            line_end(s@, k as int) == line_end(s@, j as int),
            forall|m: int| j <= m < k ==> s@[m] != '\n',
        decreases n - k,
    {
        k = k + 1;
    }
    k
}

pub fn block_end_exec(s: &Vec<char>, j: usize) -> (e: usize)
    requires
        j <= s@.len(),
    ensures
        e == block_end(s@, j as int),
        j <= e <= s@.len(),
{
    let n = s.len();
    let mut k = j;
    while k < n && !(s[k] == '*' && k + 1 < n && s[k + 1] == '/')
        invariant
            n == s@.len(),
            j <= k <= n,
            block_end(s@, k as int) == block_end(s@, j as int),
        decreases n - k,
    {
        k = k + 1;
    }
    if k < n {
        k + 2
    } else {
        n
    }
}

/// The characters `s[a..b]` as a `String`.
pub fn chars_to_string(s: &Vec<char>, a: usize, b: usize) -> (r: String)
    requires
        a <= b <= s@.len(),
    ensures
        r@ == s@.subrange(a as int, b as int),
{
    let mut r = String::new();
    let mut k = a;
    while k < b
        invariant
            a <= k <= b <= s@.len(),
            r@ == s@.subrange(a as int, k as int),
        decreases b - k,
    {
        push_char(&mut r, s[k]);
        proof {
            assert(s@.subrange(a as int, k + 1) =~= s@.subrange(a as int, k as int).push(s@[k as int]));
        }
        k = k + 1;
    }
    r
}

/// Pushes a `Plain` span for `s[start..end]`, if non-empty.
pub fn flush_plain(spans: &mut Vec<StyledSpan>, s: &Vec<char>, start: usize, end: usize)
    requires
        end <= s@.len(),
    ensures
        spans_view(final(spans)@) == spans_view(old(spans)@) + plain_run(
            s@,
            start as int,
            end as int,
        ),
{
    if start < end {
        let text = chars_to_string(s, start, end);
        let ghost before = spans@;
        spans.push(StyledSpan { text, style: SpanStyle::Plain });
        proof {
            assert(spans_view(spans@) =~= spans_view(before) + plain_run(
                s@,
                start as int,
                end as int,
            ));
        }
    } else {
        proof {
            assert(spans_view(spans@) =~= spans_view(old(spans)@) + plain_run(
                s@,
                start as int,
                end as int,
            ));
        }
    }
}

/// Pushes a span for `s[start..end]` in `style`.
pub fn push_token(
    spans: &mut Vec<StyledSpan>,
    s: &Vec<char>,
    start: usize,
    end: usize,
    style: SpanStyle,
)
    requires
        start <= end <= s@.len(),
    ensures
        spans_view(final(spans)@) == spans_view(old(spans)@) + seq![
            (s@.subrange(start as int, end as int), style),
        ],
{
    let text = chars_to_string(s, start, end);
    let ghost before = spans@;
    spans.push(StyledSpan { text, style });
    proof {
        assert(spans_view(spans@) =~= spans_view(before) + seq![
            (s@.subrange(start as int, end as int), style),
        ]);
    }
}

/// The token of `lang` that starts at `i`.
pub fn lexeme_exec(lang: Lang, s: &Vec<char>, i: usize) -> (r: (usize, Option<SpanStyle>))
    requires
        i < s.len(),
    ensures
        r.0 == lexeme(lang, s@, i as int).0,
        r.1 == lexeme(lang, s@, i as int).1,
        i < r.0 <= s@.len(),
{
    match lang {
        Lang::Data => crate::colorize::data_lexeme(s, i),
        Lang::DataWeave => crate::dwl_highlight::dw_lexeme(s, i),
    }
}

/// Cuts `chars` into styled runs by the token grammar of `lang`.
pub fn cut_runs(lang: Lang, chars: &Vec<char>) -> (r: Vec<StyledSpan>)
    ensures
        spans_view(r@) == runs(lang, chars@),
{
    let n = chars.len();
    let mut spans: Vec<StyledSpan> = Vec::new();
    let mut plain_start: usize = 0;
    let mut i: usize = 0;
    assert(spans_view(spans@) + scan(lang, chars@, 0, 0) =~= runs(lang, chars@));
    while i < n
        invariant
            n == chars@.len(),
            plain_start <= i <= n,
            spans_view(spans@) + scan(lang, chars@, i as int, plain_start as int) == runs(
                lang,
                chars@,
            ),
        decreases n - i,
    {
        let (e, st) = lexeme_exec(lang, chars, i);
        let ghost before = spans_view(spans@);
        match st {
            Some(style) => {
                flush_plain(&mut spans, chars, plain_start, i);
                push_token(&mut spans, chars, i, e, style);
                assert(spans_view(spans@) + scan(lang, chars@, e as int, e as int) =~= before
                    + scan(lang, chars@, i as int, plain_start as int));
                plain_start = e;
            },
            None => {},
        }
        i = e;
    }
    let ghost before = spans_view(spans@);
    flush_plain(&mut spans, chars, plain_start, n);
    assert(spans_view(spans@) =~= before + scan(lang, chars@, n as int, plain_start as int));
    spans
}

// ---- laws of the cut into runs ----

pub proof fn lemma_spans_text_append(a: Seq<(Seq<char>, SpanStyle)>, b: Seq<(Seq<char>, SpanStyle)>)
    ensures
        spans_text(a + b) == spans_text(a) + spans_text(b),
    decreases b.len(),
{
    if b.len() == 0 {
        assert(a + b =~= a);
        assert(spans_text(a) + spans_text(b) =~= spans_text(a));
    } else {
        lemma_spans_text_append(a, b.drop_last());
        assert((a + b).drop_last() =~= a + b.drop_last());
        assert(spans_text(a + b) =~= spans_text(a) + spans_text(b));
    }
}

proof fn lemma_plain_run_text(s: Seq<char>, a: int, b: int)
    requires
        0 <= a <= b <= s.len(),
    ensures
        spans_text(plain_run(s, a, b)) == s.subrange(a, b),
{
    if a < b {
        let r = plain_run(s, a, b);
        assert(r.drop_last() =~= Seq::<(Seq<char>, SpanStyle)>::empty());
        assert(spans_text(r.drop_last()) =~= Seq::<char>::empty());
        assert(spans_text(r) =~= s.subrange(a, b));
    } else {
        assert(s.subrange(a, b) =~= Seq::<char>::empty());
    }
}

/// A lexeme that starts inside the text ends after it and inside the text.
pub proof fn lemma_lexeme_bounds(lang: Lang, s: Seq<char>, i: int)
    requires
        0 <= i < s.len(),
    ensures
        i < lexeme(lang, s, i).0 <= s.len(),
{
    lemma_string_end_bounds(s, i + 1);
    lemma_number_end_bounds(s, i + 1);
    lemma_number_end_bounds(s, i);
    lemma_line_end_bounds(s, i);
    lemma_block_end_bounds(s, if i + 2 <= s.len() { i + 2 } else { s.len() as int });
    lemma_ident_end_bounds(s, i + 1);
    match lang {
        Lang::Data => {},
        Lang::DataWeave => {
            if s[i] == '/' && i + 1 < s.len() && s[i + 1] == '/' {
                assert(line_end(s, i) == line_end(s, i + 1));
                lemma_line_end_bounds(s, i + 1);
            } else if s[i] == '/' && i + 1 < s.len() && s[i + 1] == '*' {
            } else if is_digit(s[i]) {
                assert(number_end(s, i) == number_end(s, i + 1));
            }
        },
    }
}

/// The runs from position `i` on spell out the text from `ps` on.
pub proof fn lemma_scan_text(lang: Lang, s: Seq<char>, i: int, ps: int)
    requires
        0 <= ps <= i <= s.len(),
    ensures
        spans_text(scan(lang, s, i, ps)) == s.subrange(ps, s.len() as int),
    decreases s.len() - i,
{
    if i >= s.len() {
        lemma_plain_run_text(s, ps, s.len() as int);
    } else {
        lemma_lexeme_bounds(lang, s, i);
        let (e, st) = lexeme(lang, s, i);
        lemma_scan_text(lang, s, e, e);
        lemma_scan_text(lang, s, e, ps);
        match st {
            Some(style) => {
                let tok = seq![(s.subrange(i, e), style)];
                let rest = scan(lang, s, e, e);
                lemma_plain_run_text(s, ps, i);
                lemma_spans_text_append(plain_run(s, ps, i), tok);
                lemma_spans_text_append(plain_run(s, ps, i) + tok, rest);
                assert(tok.drop_last() =~= Seq::<(Seq<char>, SpanStyle)>::empty());
                assert(spans_text(tok.drop_last()) =~= Seq::<char>::empty());
                assert(spans_text(tok) =~= s.subrange(i, e));
                assert(s.subrange(ps, i) + s.subrange(i, e) + s.subrange(e, s.len() as int)
                    =~= s.subrange(ps, s.len() as int));
            },
            None => {},
        }
    }
}

/// Every run is a non-empty piece of the text; styled runs cover whole
/// tokens, so each run's text is a slice `s[a..b]` with `a < b`.
pub open spec fn runs_are_slices(s: Seq<char>, v: Seq<(Seq<char>, SpanStyle)>) -> bool {
    forall|k: int|
        0 <= k < v.len() ==> exists|a: int, b: int|
            0 <= a < b <= s.len() && #[trigger] v[k].0 == s.subrange(a, b)
}

pub proof fn lemma_scan_slices(lang: Lang, s: Seq<char>, i: int, ps: int)
    requires
        0 <= ps <= i <= s.len(),
    ensures
        runs_are_slices(s, scan(lang, s, i, ps)),
    decreases s.len() - i,
{
    if i >= s.len() {
        let r = plain_run(s, ps, s.len() as int);
        assert forall|k: int| 0 <= k < r.len() implies exists|a: int, b: int|
            0 <= a < b <= s.len() && #[trigger] r[k].0 == s.subrange(a, b) by {
            assert(r[k].0 == s.subrange(ps, s.len() as int));
        }
    } else {
        lemma_lexeme_bounds(lang, s, i);
        let (e, st) = lexeme(lang, s, i);
        lemma_scan_slices(lang, s, e, e);
        lemma_scan_slices(lang, s, e, ps);
        match st {
            Some(style) => {
                let p = plain_run(s, ps, i);
                let tok = seq![(s.subrange(i, e), style)];
                let rest = scan(lang, s, e, e);
                let all = p + tok + rest;
                assert forall|k: int| 0 <= k < all.len() implies exists|a: int, b: int|
                    0 <= a < b <= s.len() && #[trigger] all[k].0 == s.subrange(a, b) by {
                    if k < p.len() {
                        assert(all[k].0 == s.subrange(ps, i));
                    } else if k == p.len() {
                        assert(all[k].0 == s.subrange(i, e));
                    } else {
                        assert(all[k] == rest[k - p.len() - 1]);
                    }
                }
            },
            None => {},
        }
    }
}


// ---- laws of the token runs ----

/// `line_end(s, j)` is the position of the first newline at or after `j`,
/// or the end of the text when there is none.
pub proof fn lemma_line_end_first_newline(s: Seq<char>, j: int)
    requires
        0 <= j <= s.len(),
    ensures
        j <= line_end(s, j) <= s.len(),
        forall|k: int| j <= k < line_end(s, j) ==> s[k] != '\n',
        line_end(s, j) < s.len() ==> s[line_end(s, j)] == '\n',
    decreases s.len() - j,
{
    if j < s.len() && s[j] != '\n' {
        lemma_line_end_first_newline(s, j + 1);
    }
}

/// In DataWeave source, a `//` comment met by the scan is one dimmed run
/// that reaches up to, not including, the first newline after it (or the
/// end of the text); the scan goes on at that newline.
pub proof fn lemma_line_comment_run(s: Seq<char>, i: int, ps: int)
    requires
        0 <= ps <= i,
        i + 1 < s.len(),
        s[i] == '/',
        s[i + 1] == '/',
    ensures
        exists|e: int|
            i + 2 <= e <= s.len() && (forall|k: int| i <= k < e ==> s[k] != '\n') && (e
                < s.len() ==> s[e] == '\n') && scan(Lang::DataWeave, s, i, ps) == plain_run(
                s,
                ps,
                i,
            ) + seq![(s.subrange(i, e), SpanStyle::Dimmed)] + scan(Lang::DataWeave, s, e, e),
{
    let e = line_end(s, i);
    lemma_line_end_first_newline(s, i);
    assert(line_end(s, i) == line_end(s, i + 1));
    assert(line_end(s, i + 1) == line_end(s, i + 2));
    lemma_line_end_first_newline(s, i + 2);
    assert(i + 2 <= e);
    assert(lexeme(Lang::DataWeave, s, i) == (e, Some(SpanStyle::Dimmed)));
    assert(scan(Lang::DataWeave, s, i, ps) == plain_run(s, ps, i) + seq![
        (s.subrange(i, e), SpanStyle::Dimmed),
    ] + scan(Lang::DataWeave, s, e, e));
    assert(forall|k: int| i <= k < e ==> s[k] != '\n');
}

proof fn lemma_ident_end_at(s: Seq<char>, j: int, m: int)
    requires
        0 <= j <= m <= s.len(),
        forall|k: int| j <= k < m ==> is_ascii_letter(#[trigger] s[k]),
        m == s.len() || !is_ident_continue_spec(s[m]),
    ensures
        ident_end(s, j) == m,
    decreases m - j,
{
    if j < m {
        assert(is_ascii_letter(s[j]));
        lemma_ident_end_at(s, j + 1, m);
    }
}

/// In DataWeave source, a keyword (of ASCII letters) met by the scan and
/// not followed by an identifier character is a magenta run of its own;
/// the scan goes on right after it.
pub proof fn lemma_keyword_run(s: Seq<char>, i: int, ps: int, w: Seq<char>)
    requires
        0 <= ps <= i,
        w.len() > 0,
        i + w.len() <= s.len(),
        s.subrange(i, i + w.len()) == w,
        is_keyword(w),
        forall|k: int| 0 <= k < w.len() ==> is_ascii_letter(#[trigger] w[k]),
        i + w.len() == s.len() || !is_ident_continue_spec(s[i + w.len()]),
    ensures
        scan(Lang::DataWeave, s, i, ps) == plain_run(s, ps, i) + seq![
            (w, SpanStyle::Magenta),
        ] + scan(Lang::DataWeave, s, i + w.len(), i + w.len()),
{
    let m = i + w.len();
    assert forall|k: int| i + 1 <= k < m implies is_ascii_letter(#[trigger] s[k]) by {
        assert(s[k] == w[k - i]);
    }
    lemma_ident_end_at(s, i + 1, m);
    assert(s[i] == w[0]);
    assert(is_ascii_letter(s[i]));
    assert(lexeme(Lang::DataWeave, s, i) == (m, Some(SpanStyle::Magenta)));
}

/// `number_end(s, j)` ends the longest run of digits and dots that
/// starts at `j`.
pub proof fn lemma_number_end_longest_run(s: Seq<char>, j: int)
    requires
        0 <= j <= s.len(),
    ensures
        j <= number_end(s, j) <= s.len(),
        forall|k: int| j <= k < number_end(s, j) ==> is_digit(#[trigger] s[k]) || s[k] == '.',
        number_end(s, j) < s.len() ==> !is_digit(s[number_end(s, j)]) && s[number_end(s, j)]
            != '.',
    decreases s.len() - j,
{
    if j < s.len() && (is_digit(s[j]) || s[j] == '.') {
        lemma_number_end_longest_run(s, j + 1);
    }
}

/// `block_end(s, j)` is just past the first `*/` that starts at or after
/// `j`, or the end of the text when no `*/` follows.
pub proof fn lemma_block_end_first_close(s: Seq<char>, j: int)
    requires
        0 <= j <= s.len(),
    ensures
        j <= block_end(s, j) <= s.len(),
        forall|k: int|
            j <= k && k + 2 < block_end(s, j) ==> !(#[trigger] s[k] == '*' && s[k + 1] == '/'),
        block_end(s, j) == s.len() || (j + 2 <= block_end(s, j) && s[block_end(s, j) - 2] == '*'
            && s[block_end(s, j) - 1] == '/'),
    decreases s.len() - j,
{
    if j < s.len() && !(s[j] == '*' && j + 1 < s.len() && s[j + 1] == '/') {
        lemma_block_end_first_close(s, j + 1);
        let e = block_end(s, j);
        assert forall|k: int| j <= k && k + 2 < e implies !(#[trigger] s[k] == '*' && s[k + 1]
            == '/') by {
            if k > j {
                assert(j + 1 <= k);
            }
        }
    }
}

/// In a text without `\`, `string_end(s, j)` is just past the first `"`
/// at or after `j`, or the end of the text when there is none.
pub proof fn lemma_string_end_first_quote(s: Seq<char>, j: int)
    requires
        0 <= j <= s.len(),
        forall|k: int| j <= k < s.len() ==> #[trigger] s[k] != '\\',
    ensures
        j <= string_end(s, j) <= s.len(),
        forall|k: int| j <= k < string_end(s, j) - 1 ==> #[trigger] s[k] != '"',
        string_end(s, j) == s.len() || (j < string_end(s, j) && s[string_end(s, j) - 1] == '"'),
        string_end(s, j) == s.len() && j < s.len() ==> s[s.len() - 1] == '"' || forall|k: int|
            j <= k < s.len() ==> #[trigger] s[k] != '"',
    decreases s.len() - j,
{
    if j < s.len() && s[j] != '"' {
        lemma_string_end_first_quote(s, j + 1);
    }
}

/// Whether `c` is one of the structural punctuation characters of data
/// output: `{`, `}`, `[`, `]`, `:` and `,`.
pub open spec fn data_punct_char(c: char) -> bool {
    c == '{' || c == '}' || c == '[' || c == ']' || c == ':' || c == ','
}

/// In structured output, each of `{ } [ ] : ,` met by the scan (outside
/// a string literal) is a dimmed run of its own; the scan goes on right
/// after it.
pub proof fn lemma_structural_punct_run(s: Seq<char>, i: int, ps: int)
    requires
        0 <= ps <= i < s.len(),
        data_punct_char(s[i]),
    ensures
        scan(Lang::Data, s, i, ps) == plain_run(s, ps, i) + seq![(seq![s[i]], SpanStyle::Dimmed)]
            + scan(Lang::Data, s, i + 1, i + 1),
{
    assert(s.subrange(i, i + 1) =~= seq![s[i]]);
}

/// A structured text that begins with `{ } [ ] : ,` begins with that
/// character alone as a dimmed run.
pub proof fn lemma_leading_structural_punct(c: char, t: Seq<char>)
    requires
        data_punct_char(c),
    ensures
        runs(Lang::Data, seq![c] + t)[0] == (seq![c], SpanStyle::Dimmed),
{
    let s = seq![c] + t;
    assert(s[0] == c);
    lemma_structural_punct_run(s, 0, 0);
    assert(plain_run(s, 0, 0) =~= Seq::<(Seq<char>, SpanStyle)>::empty());
}

/// Whether `c` is one of the punctuation characters of DataWeave source
/// that are dimmed: `{ } [ ] ( ) , : .`.
pub open spec fn dw_punct_char(c: char) -> bool {
    c == '{' || c == '}' || c == '[' || c == ']' || c == '(' || c == ')' || c == ',' || c
        == ':' || c == '.'
}

/// In DataWeave source, each of `{ } [ ] ( ) , : .` met by the scan is a
/// dimmed run of its own; the scan goes on right after it.
pub proof fn lemma_dw_punct_run(s: Seq<char>, i: int, ps: int)
    requires
        0 <= ps <= i < s.len(),
        dw_punct_char(s[i]),
    ensures
        scan(Lang::DataWeave, s, i, ps) == plain_run(s, ps, i) + seq![
            (seq![s[i]], SpanStyle::Dimmed),
        ] + scan(Lang::DataWeave, s, i + 1, i + 1),
{
    assert(s.subrange(i, i + 1) =~= seq![s[i]]);
}

/// No two neighbouring runs are both plain: plain text between styled
/// tokens is always gathered into a single run.
pub open spec fn no_adjacent_plain(v: Seq<(Seq<char>, SpanStyle)>) -> bool {
    forall|k: int| 0 <= k < v.len() - 1 ==> !#[trigger] plain_pair(v, k)
}

/// Whether the runs at `k` and `k + 1` are both plain.
pub open spec fn plain_pair(v: Seq<(Seq<char>, SpanStyle)>, k: int) -> bool {
    v[k].1 == SpanStyle::Plain && v[k + 1].1 == SpanStyle::Plain
}

/// A token that gets a style never gets the plain one.
pub proof fn lemma_lexeme_not_plain(lang: Lang, s: Seq<char>, i: int)
    ensures
        lexeme(lang, s, i).1 != Some(SpanStyle::Plain),
{
}

/// A plain run of at most one element, then one styled run, then runs
/// without two plain neighbours: together still without two plain
/// neighbours.
proof fn lemma_join_no_adjacent_plain(
    p: Seq<(Seq<char>, SpanStyle)>,
    tok: Seq<(Seq<char>, SpanStyle)>,
    rest: Seq<(Seq<char>, SpanStyle)>,
)
    requires
        p.len() <= 1,
        tok.len() == 1,
        tok[0].1 != SpanStyle::Plain,
        no_adjacent_plain(rest),
    ensures
        no_adjacent_plain(p + tok + rest),
{
    let all = p + tok + rest;
    assert forall|k: int| 0 <= k < all.len() - 1 implies !#[trigger] plain_pair(all, k) by {
        if k + 1 == p.len() {
            assert(all[k + 1] == tok[0]);
        } else if k == p.len() {
            assert(all[k] == tok[0]);
        } else {
            assert(all[k] == rest[k - p.len() - 1]);
            assert(all[k + 1] == rest[k + 1 - p.len() - 1]);
            assert(!plain_pair(rest, k - p.len() - 1));
        }
    }
}

/// The runs from position `i` on never hold two plain runs side by side.
pub proof fn lemma_scan_no_adjacent_plain(lang: Lang, s: Seq<char>, i: int, ps: int)
    ensures
        no_adjacent_plain(scan(lang, s, i, ps)),
    decreases s.len() - i,
{
    if i < 0 || i >= s.len() {
    } else {
        let (e0, st) = lexeme(lang, s, i);
        let e = if i < e0 <= s.len() { e0 } else { i + 1 };
        lemma_lexeme_not_plain(lang, s, i);
        lemma_scan_no_adjacent_plain(lang, s, e, e);
        lemma_scan_no_adjacent_plain(lang, s, e, ps);
        match st {
            Some(style) => {
                lemma_join_no_adjacent_plain(
                    plain_run(s, ps, i),
                    seq![(s.subrange(i, e), style)],
                    scan(lang, s, e, e),
                );
            },
            None => {},
        }
    }
}

/// A slice of a text without escape characters has none either.
pub proof fn lemma_slices_no_esc(s: Seq<char>, v: Seq<(Seq<char>, SpanStyle)>)
    requires
        runs_are_slices(s, v),
        !s.contains(esc()),
    ensures
        forall|k: int| 0 <= k < v.len() ==> !(#[trigger] v[k].0).contains(esc()),
{
    assert forall|k: int| 0 <= k < v.len() implies !(#[trigger] v[k].0).contains(esc()) by {
        let (a, b) = choose|a: int, b: int| 0 <= a < b <= s.len() && v[k].0 == s.subrange(a, b);
        if v[k].0.contains(esc()) {
            let x = choose|x: int| 0 <= x < v[k].0.len() && v[k].0[x] == esc();
            assert(s[a + x] == esc());
        }
    }
}

} // verus!
