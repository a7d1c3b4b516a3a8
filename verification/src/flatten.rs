//! Flattens a multi-line DataWeave script into a single line so it can be
//! fed to `dw repl`, which evaluates one document per input line.
//!
//! Comment markers inside string literals (`"http://example.com"`) are
//! common in real scripts, so string-literal state (with `\"` escapes) is
//! tracked and comments are stripped only outside of strings.

use vstd::prelude::*;
use vstd::string::StringExecFns;
use crate::text::{chars_of, push_char};

verus! {

/// Where the scanner stands.
#[derive(Clone, Copy)]
pub enum ScanState {
    Code,
    LineComment,
    BlockComment,
    StringLit,
}

pub open spec fn is_newline(c: char) -> bool {
    c == '\n' || c == '\r'
}

/// The text that the scan of `s` from position `i` in state `st` keeps:
/// comments outside string literals are dropped (a line comment up to,
/// not including, its newline; a block comment through its `*/`), every
/// newline or carriage return outside a comment becomes a space, a line
/// comment's newline becomes a space, newlines inside a block comment
/// become spaces, and an escaped character inside a string is kept as is.
pub open spec fn scrub(s: Seq<char>, i: int, st: ScanState) -> Seq<char>
    decreases s.len() - i,
{
    if i < 0 || i >= s.len() {
        Seq::empty()
    } else {
        let c = s[i];
        let has_next = i + 1 < s.len();
        match st {
            ScanState::Code => if c == '"' {
                seq![c] + scrub(s, i + 1, ScanState::StringLit)
            } else if c == '/' && has_next && s[i + 1] == '/' {
                scrub(s, i + 2, ScanState::LineComment)
            } else if c == '/' && has_next && s[i + 1] == '*' {
                scrub(s, i + 2, ScanState::BlockComment)
            } else if is_newline(c) {
                seq![' '] + scrub(s, i + 1, ScanState::Code)
            } else {
                seq![c] + scrub(s, i + 1, ScanState::Code)
            },
            ScanState::StringLit => if c == '\\' && has_next {
                seq![c, s[i + 1]] + scrub(s, i + 2, ScanState::StringLit)
            } else if c == '"' {
                seq![c] + scrub(s, i + 1, ScanState::Code)
            } else if is_newline(c) {
                seq![' '] + scrub(s, i + 1, ScanState::StringLit)
            } else {
                seq![c] + scrub(s, i + 1, ScanState::StringLit)
            },
            ScanState::LineComment => if c == '\n' {
                seq![' '] + scrub(s, i + 1, ScanState::Code)
            } else {
                scrub(s, i + 1, ScanState::LineComment)
            },
            ScanState::BlockComment => if c == '*' && has_next && s[i + 1] == '/' {
                scrub(s, i + 2, ScanState::Code)
            } else if is_newline(c) {
                seq![' '] + scrub(s, i + 1, ScanState::BlockComment)
            } else {
                scrub(s, i + 1, ScanState::BlockComment)
            },
        }
    }
}

/// Whether `c` has the Unicode `White_Space` property: the controls
/// U+0009 to U+000D, space, U+0085, no-break space, U+1680, the spaces
/// U+2000 to U+200A, the line and paragraph separators U+2028 and U+2029,
/// U+202F, U+205F and U+3000.
pub open spec fn is_ws(c: char) -> bool {
    ('\u{9}' <= c && c <= '\u{d}') || c == ' ' || c == '\u{85}' || c == '\u{a0}' || c
        == '\u{1680}' || ('\u{2000}' <= c && c <= '\u{200a}') || c == '\u{2028}' || c
        == '\u{2029}' || c == '\u{202f}' || c == '\u{205f}' || c == '\u{3000}'
}

/// Whether `c` has the Unicode `White_Space` property (the code points
/// listed at `is_ws`), as `char::is_whitespace` answers.
pub fn is_whitespace(c: char) -> (b: bool)
    ensures
        b == is_ws(c),
{
    ('\u{9}' <= c && c <= '\u{d}') || c == ' ' || c == '\u{85}' || c == '\u{a0}' || c
        == '\u{1680}' || ('\u{2000}' <= c && c <= '\u{200a}') || c == '\u{2028}' || c
        == '\u{2029}' || c == '\u{202f}' || c == '\u{205f}' || c == '\u{3000}'
}

/// `word` if it is not empty, as a list of words.
pub open spec fn pending(word: Seq<char>) -> Seq<Seq<char>> {
    if word.len() > 0 {
        seq![word]
    } else {
        Seq::empty()
    }
}

/// The maximal runs of non-whitespace characters of `t`, in order, where
/// `cur` is a word already begun before `t`.
pub open spec fn words_from(t: Seq<char>, cur: Seq<char>) -> Seq<Seq<char>>
    decreases t.len(),
{
    if t.len() == 0 {
        pending(cur)
    } else if is_ws(t[0]) {
        pending(cur) + words_from(t.skip(1), Seq::empty())
    } else {
        words_from(t.skip(1), cur.push(t[0]))
    }
}

/// The whitespace-separated words of `t`.
pub open spec fn words(t: Seq<char>) -> Seq<Seq<char>> {
    words_from(t, Seq::empty())
}

/// The words joined by single spaces.
pub open spec fn join_words(ws: Seq<Seq<char>>) -> Seq<char>
    decreases ws.len(),
{
    if ws.len() == 0 {
        Seq::empty()
    } else if ws.len() == 1 {
        ws[0]
    } else {
        join_words(ws.drop_last()) + seq![' '] + ws.last()
    }
}

/// The single-line form of `src`: the scan's kept text, with all runs of
/// whitespace collapsed to single spaces and none at either end.
pub open spec fn flattened(src: Seq<char>) -> Seq<char> {
    join_words(words(scrub(src, 0, ScanState::Code)))
}

/// A word is non-empty and free of whitespace.
pub open spec fn is_word(w: Seq<char>) -> bool {
    w.len() > 0 && forall|k: int| 0 <= k < w.len() ==> !is_ws(#[trigger] w[k])
}

proof fn lemma_words_from_are_words(t: Seq<char>, cur: Seq<char>)
    requires
        forall|k: int| 0 <= k < cur.len() ==> !is_ws(#[trigger] cur[k]),
    ensures
        forall|k: int|
            0 <= k < words_from(t, cur).len() ==> is_word(#[trigger] words_from(t, cur)[k]),
    decreases t.len(),
{
    if t.len() == 0 {
        let p = pending(cur);
        assert forall|k: int| 0 <= k < p.len() implies is_word(#[trigger] p[k]) by {
            assert(p[k] == cur);
        }
        assert(words_from(t, cur) == p);
    } else if is_ws(t[0]) {
        lemma_words_from_are_words(t.skip(1), Seq::empty());
        let p = pending(cur);
        let r = words_from(t.skip(1), Seq::empty());
        assert forall|k: int| 0 <= k < (p + r).len() implies is_word(#[trigger] (p + r)[k]) by {
            if k >= p.len() {
                assert((p + r)[k] == r[k - p.len()]);
            } else {
                assert((p + r)[k] == cur);
            }
        }
        assert(words_from(t, cur) == p + r);
    } else {
        let c2 = cur.push(t[0]);
        assert forall|k: int| 0 <= k < c2.len() implies !is_ws(#[trigger] c2[k]) by {
            if k < cur.len() {
                assert(c2[k] == cur[k]);
            }
        }
        lemma_words_from_are_words(t.skip(1), c2);
        assert(words_from(t, cur) == words_from(t.skip(1), c2));
    }
}

/// Every character of joined words is a space or not whitespace.
proof fn lemma_join_chars(ws: Seq<Seq<char>>)
    requires
        forall|k: int| 0 <= k < ws.len() ==> is_word(#[trigger] ws[k]),
    ensures
        forall|k: int|
            0 <= k < join_words(ws).len() ==> #[trigger] join_words(ws)[k] == ' '
                || !is_ws(join_words(ws)[k]),
    decreases ws.len(),
{
    if ws.len() > 1 {
        let d = ws.drop_last();
        assert forall|k: int| 0 <= k < d.len() implies is_word(#[trigger] d[k]) by {
            assert(d[k] == ws[k]);
        }
        lemma_join_chars(d);
        let j = join_words(ws);
        let a = join_words(d);
        let w = ws.last();
        assert(is_word(ws[ws.len() - 1]));
        assert forall|k: int| 0 <= k < j.len() implies #[trigger] j[k] == ' '
            || !is_ws(j[k]) by {
            if k < a.len() {
                assert(j[k] == a[k]);
            } else if k > a.len() {
                assert(j[k] == w[k - a.len() - 1]);
            }
        }
    } else if ws.len() == 1 {
        assert(is_word(ws[0]));
    }
}

/// Joined words neither start nor end with a space, and never hold two
/// spaces in a row, when a space is whitespace.
proof fn lemma_join_spacing(ws: Seq<Seq<char>>)
    requires
        forall|k: int| 0 <= k < ws.len() ==> is_word(#[trigger] ws[k]),
    ensures
        join_words(ws).len() > 0 ==> join_words(ws)[0] != ' ' && join_words(ws).last() != ' ',
        forall|k: int|
            0 <= k < join_words(ws).len() - 1 ==> !(#[trigger] join_words(ws)[k] == ' '
                && join_words(ws)[k + 1] == ' '),
    decreases ws.len(),
{
    if ws.len() > 1 {
        let d = ws.drop_last();
        assert forall|k: int| 0 <= k < d.len() implies is_word(#[trigger] d[k]) by {
            assert(d[k] == ws[k]);
        }
        lemma_join_spacing(d);
        let j = join_words(ws);
        let a = join_words(d);
        let w = ws.last();
        assert(is_word(ws[ws.len() - 1]));
        assert(is_word(d[0]));
        lemma_join_nonempty(d);
        assert(w[0] != ' ');
        assert(w[w.len() - 1] != ' ');
        assert(j[0] == a[0]);
        assert(j.last() == w[w.len() - 1]);
        assert forall|k: int| 0 <= k < j.len() - 1 implies !(#[trigger] j[k] == ' ' && j[k + 1]
            == ' ') by {
            if k + 1 < a.len() {
                assert(j[k] == a[k] && j[k + 1] == a[k + 1]);
            } else if k + 1 == a.len() {
                assert(j[k] == a.last());
            } else if k == a.len() {
                assert(j[k + 1] == w[0]);
            } else {
                assert(j[k] == w[k - a.len() - 1]);
            }
        }
    } else if ws.len() == 1 {
        assert(is_word(ws[0]));
        let w = ws[0];
        assert(w[0] != ' ');
        assert(w[w.len() - 1] != ' ');
    }
}

proof fn lemma_join_nonempty(ws: Seq<Seq<char>>)
    requires
        ws.len() > 0,
        forall|k: int| 0 <= k < ws.len() ==> is_word(#[trigger] ws[k]),
    ensures
        join_words(ws).len() > 0,
    decreases ws.len(),
{
    assert(is_word(ws[ws.len() - 1]));
}

/// Collapses every run of whitespace in `t` to a single space, dropping
/// leading and trailing whitespace.
fn collapse_whitespace(t: &Vec<char>) -> (r: String)
    ensures
        r@ == join_words(words(t@)),
{
    let n = t.len();
    let mut out = String::new();
    let mut cur = String::new();
    let mut started = false;
    let ghost mut done: Seq<Seq<char>> = Seq::empty();
    let mut i: usize = 0;
    assert(t@.skip(0) =~= t@);
    while i < n
        invariant
            n == t@.len(),
            i <= n,
            out@ == join_words(done),
            started == (done.len() > 0),
            done + words_from(t@.skip(i as int), cur@) == words(t@),
        decreases n - i,
    {
        let c = t[i];
        let ghost rest = t@.skip(i as int);
        assert(rest.skip(1) =~= t@.skip(i + 1));
        if is_whitespace(c) {
            if cur.unicode_len() > 0 {
                if started {
                    push_char(&mut out, ' ');
                }
                out.append(cur.as_str());
                proof {
                    let d2 = done.push(cur@);
                    assert(d2.drop_last() =~= done);
                    assert(out@ =~= join_words(d2));
                    assert(done.push(cur@) + words_from(t@.skip(i + 1), Seq::empty()) =~= done
                        + (pending(cur@) + words_from(t@.skip(i + 1), Seq::empty())));
                    done = done.push(cur@);
                }
                cur = String::new();
                started = true;
            } else {
                assert(pending(cur@) =~= Seq::<Seq<char>>::empty());
                assert(pending(cur@) + words_from(t@.skip(i + 1), Seq::empty()) =~= words_from(
                    t@.skip(i + 1),
                    Seq::empty(),
                ));
                assert(cur@ =~= Seq::<char>::empty());
            }
        } else {
            push_char(&mut cur, c);
        }
        i = i + 1;
    }
    assert(t@.skip(n as int) =~= Seq::<char>::empty());
    if cur.unicode_len() > 0 {
        if started {
            push_char(&mut out, ' ');
        }
        out.append(cur.as_str());
        proof {
            let d2 = done.push(cur@);
            assert(d2.drop_last() =~= done);
            assert(out@ =~= join_words(d2));
            assert(done + pending(cur@) =~= d2);
        }
    } else {
        assert(done + pending(cur@) =~= done);
    }
    out
}

/// Flattens `src` into a single-line document: `//` and `/* */` comments
/// that fall outside string literals are stripped, newlines collapse to
/// spaces, and all runs of whitespace collapse to single spaces with none
/// at either end. Every character of the result is a space or not
/// whitespace at all, so the result holds no newline.
pub fn flatten(src: &str) -> (r: String)
    ensures
        r@ == flattened(src@),
        forall|k: int| 0 <= k < r@.len() ==> #[trigger] r@[k] == ' ' || !is_ws(r@[k]),
        r@.len() > 0 ==> r@[0] != ' ' && r@.last() != ' ',
        forall|k: int| 0 <= k < r@.len() - 1 ==> !(#[trigger] r@[k] == ' ' && r@[k + 1] == ' '),
        !r@.contains('\n'),
{
    let chars = chars_of(src);
    let n = chars.len();
    let mut out: Vec<char> = Vec::new();
    let mut state = ScanState::Code;
    let mut i: usize = 0;
    while i < n
        invariant
            n == chars@.len(),
            i <= n,
            out@ + scrub(chars@, i as int, state) == scrub(chars@, 0, ScanState::Code),
        decreases n - i,
    {
        let c = chars[i];
        let has_next = i + 1 < n;
        let ghost before = out@;
        let ghost st = state;
        match state {
            ScanState::Code => {
                if c == '"' {
                    state = ScanState::StringLit;
                    out.push(c);
                    i = i + 1;
                } else if c == '/' && has_next && chars[i + 1] == '/' {
                    state = ScanState::LineComment;
                    i = i + 2;
                } else if c == '/' && has_next && chars[i + 1] == '*' {
                    state = ScanState::BlockComment;
                    i = i + 2;
                } else if c == '\n' || c == '\r' {
                    out.push(' ');
                    i = i + 1;
                } else {
                    out.push(c);
                    i = i + 1;
                }
            },
            ScanState::StringLit => {
                if c == '\\' && has_next {
                    out.push(c);
                    out.push(chars[i + 1]);
                    i = i + 2;
                } else if c == '"' {
                    state = ScanState::Code;
                    out.push(c);
                    i = i + 1;
                } else if c == '\n' || c == '\r' {
                    out.push(' ');
                    i = i + 1;
                } else {
                    out.push(c);
                    i = i + 1;
                }
            },
            ScanState::LineComment => {
                if c == '\n' {
                    state = ScanState::Code;
                    out.push(' ');
                }
                i = i + 1;
            },
            ScanState::BlockComment => {
                if c == '*' && has_next && chars[i + 1] == '/' {
                    state = ScanState::Code;
                    i = i + 2;
                } else {
                    if c == '\n' || c == '\r' {
                        out.push(' ');
                    }
                    i = i + 1;
                }
            },
        }
        proof {
            let k = (out@.len() - before.len()) as int;
            assert(out@ =~= before + out@.subrange(before.len() as int, out@.len() as int));
            assert(out@ + scrub(chars@, i as int, state) =~= before + (out@.subrange(
                before.len() as int,
                out@.len() as int,
            ) + scrub(chars@, i as int, state)));
        }
    }
    let r = collapse_whitespace(&out);
    proof {
        assert(out@ + scrub(chars@, n as int, state) =~= out@);
        lemma_words_from_are_words(out@, Seq::empty());
        lemma_join_chars(words(out@));
        lemma_join_spacing(words(out@));
        if r@.contains('\n') {
            let x = choose|x: int| 0 <= x < r@.len() && r@[x] == '\n';
            assert(r@[x] == ' ' || !is_ws(r@[x]));
        }
    }
    r
}


// ---- flattening twice changes nothing ----

/// How a reader that only tracks strings and comment openers stands
/// after a prefix of flattened text: in code, in code just after a `/`,
/// inside a string literal, or inside one just after a `\`.
pub enum Reading {
    Code,
    AfterSlash,
    Str,
    AfterBackslash,
}

/// The reader's next stand after `c`, or `None` where `c` would open a
/// comment (a `/` or `*` right after a `/` in code).
pub open spec fn read_step(a: Reading, c: char) -> Option<Reading> {
    match a {
        Reading::Code => if c == '"' {
            Some(Reading::Str)
        } else if c == '/' {
            Some(Reading::AfterSlash)
        } else {
            Some(Reading::Code)
        },
        Reading::AfterSlash => if c == '/' || c == '*' {
            None
        } else if c == '"' {
            Some(Reading::Str)
        } else {
            Some(Reading::Code)
        },
        Reading::Str => if c == '\\' {
            Some(Reading::AfterBackslash)
        } else if c == '"' {
            Some(Reading::Code)
        } else {
            Some(Reading::Str)
        },
        Reading::AfterBackslash => Some(Reading::Str),
    }
}

/// Where the reader stands after all of `t`, from `a`; `None` if `t`
/// would open a comment.
pub open spec fn read_all(t: Seq<char>, a: Reading) -> Option<Reading>
    decreases t.len(),
{
    if t.len() == 0 {
        Some(a)
    } else {
        match read_step(a, t[0]) {
            None => None,
            Some(b) => read_all(t.skip(1), b),
        }
    }
}

/// The reader's stand after a whitespace character.
pub open spec fn after_ws(a: Reading) -> Reading {
    match a {
        Reading::Code | Reading::AfterSlash => Reading::Code,
        Reading::Str | Reading::AfterBackslash => Reading::Str,
    }
}

proof fn lemma_read_all_append(u: Seq<char>, v: Seq<char>, a: Reading)
    ensures
        read_all(u + v, a) == match read_all(u, a) {
            None => None,
            Some(b) => read_all(v, b),
        },
    decreases u.len(),
{
    if u.len() == 0 {
        assert(u + v =~= v);
    } else {
        assert((u + v)[0] == u[0]);
        assert((u + v).skip(1) =~= u.skip(1) + v);
        match read_step(a, u[0]) {
            None => {},
            Some(b) => {
                lemma_read_all_append(u.skip(1), v, b);
            },
        }
    }
}

proof fn lemma_read_one(c: char, rest: Seq<char>, a: Reading)
    ensures
        read_all(seq![c] + rest, a) == match read_step(a, c) {
            None => None,
            Some(b) => read_all(rest, b),
        },
{
    assert((seq![c] + rest)[0] == c);
    assert((seq![c] + rest).skip(1) =~= rest);
}

/// The text the scan keeps never opens a comment: read from where the
/// scan stands, it stays clear of `//` and `/*` in code.
proof fn lemma_scrub_reads(s: Seq<char>, i: int, st: ScanState)
    requires
        0 <= i,
    ensures
        st is Code ==> read_all(scrub(s, i, st), Reading::Code) is Some,
        st is Code && (i >= s.len() || (s[i] != '/' && s[i] != '*')) ==> read_all(
            scrub(s, i, st),
            Reading::AfterSlash,
        ) is Some,
        st is StringLit ==> read_all(scrub(s, i, st), Reading::Str) is Some,
        st is LineComment ==> read_all(scrub(s, i, st), Reading::Code) is Some,
        st is BlockComment ==> read_all(scrub(s, i, st), Reading::Code) is Some,
    decreases s.len() - i,
{
    if i >= s.len() {
    } else {
        let c = s[i];
        let has_next = i + 1 < s.len();
        match st {
            ScanState::Code => if c == '"' {
                lemma_scrub_reads(s, i + 1, ScanState::StringLit);
                lemma_read_one(c, scrub(s, i + 1, ScanState::StringLit), Reading::Code);
                lemma_read_one(c, scrub(s, i + 1, ScanState::StringLit), Reading::AfterSlash);
            } else if c == '/' && has_next && s[i + 1] == '/' {
                lemma_scrub_reads(s, i + 2, ScanState::LineComment);
            } else if c == '/' && has_next && s[i + 1] == '*' {
                lemma_scrub_reads(s, i + 2, ScanState::BlockComment);
            } else if is_newline(c) {
                lemma_scrub_reads(s, i + 1, ScanState::Code);
                lemma_read_one(' ', scrub(s, i + 1, ScanState::Code), Reading::Code);
                lemma_read_one(' ', scrub(s, i + 1, ScanState::Code), Reading::AfterSlash);
            } else {
                lemma_scrub_reads(s, i + 1, ScanState::Code);
                lemma_read_one(c, scrub(s, i + 1, ScanState::Code), Reading::Code);
                lemma_read_one(c, scrub(s, i + 1, ScanState::Code), Reading::AfterSlash);
            },
            ScanState::StringLit => if c == '\\' && has_next {
                let rest = scrub(s, i + 2, ScanState::StringLit);
                lemma_scrub_reads(s, i + 2, ScanState::StringLit);
                assert(seq![c, s[i + 1]] + rest =~= seq![c] + (seq![s[i + 1]] + rest));
                lemma_read_one(c, seq![s[i + 1]] + rest, Reading::Str);
                lemma_read_one(s[i + 1], rest, Reading::AfterBackslash);
            } else if c == '"' {
                lemma_scrub_reads(s, i + 1, ScanState::Code);
                lemma_read_one(c, scrub(s, i + 1, ScanState::Code), Reading::Str);
            } else if is_newline(c) {
                lemma_scrub_reads(s, i + 1, ScanState::StringLit);
                lemma_read_one(' ', scrub(s, i + 1, ScanState::StringLit), Reading::Str);
            } else {
                lemma_scrub_reads(s, i + 1, ScanState::StringLit);
                lemma_read_one(c, scrub(s, i + 1, ScanState::StringLit), Reading::Str);
            },
            ScanState::LineComment => if c == '\n' {
                lemma_scrub_reads(s, i + 1, ScanState::Code);
                lemma_read_one(' ', scrub(s, i + 1, ScanState::Code), Reading::Code);
            } else {
                lemma_scrub_reads(s, i + 1, ScanState::LineComment);
            },
            ScanState::BlockComment => if c == '*' && has_next && s[i + 1] == '/' {
                lemma_scrub_reads(s, i + 2, ScanState::Code);
            } else if is_newline(c) {
                lemma_scrub_reads(s, i + 1, ScanState::BlockComment);
                lemma_read_one(' ', scrub(s, i + 1, ScanState::BlockComment), Reading::Code);
            } else {
                lemma_scrub_reads(s, i + 1, ScanState::BlockComment);
            },
        }
    }
}

/// Joining one more word adds a space and the word.
proof fn lemma_join_push(done: Seq<Seq<char>>, w: Seq<char>)
    ensures
        join_words(done.push(w)) == if done.len() == 0 {
            w
        } else {
            join_words(done) + seq![' '] + w
        },
{
    assert(done.push(w).drop_last() =~= done);
    if done.len() == 0 {
        assert(done.push(w)[0] == w);
    }
}

/// Reading the joined words, the state before each word is the state
/// the original text left there (up to the whitespace before it), so
/// collapsing whitespace opens no comment that was not there.
proof fn lemma_collapse_reads(
    t: Seq<char>,
    cur: Seq<char>,
    done: Seq<Seq<char>>,
    ax: Reading,
    aj: Reading,
)
    requires
        forall|k: int| 0 <= k < done.len() ==> is_word(#[trigger] done[k]),
        forall|k: int| 0 <= k < cur.len() ==> !is_ws(#[trigger] cur[k]),
        read_all(t, ax) is Some,
        read_all(join_words(done), Reading::Code) == Some(aj),
        cur.len() > 0 ==> read_all(
            cur,
            if done.len() == 0 {
                Reading::Code
            } else {
                after_ws(aj)
            },
        ) == Some(ax),
        cur.len() == 0 ==> ax == if done.len() == 0 {
            Reading::Code
        } else {
            after_ws(aj)
        },
    ensures
        read_all(join_words(done + words_from(t, cur)), Reading::Code) is Some,
    decreases t.len(),
{
    let pre = if done.len() == 0 {
        Reading::Code
    } else {
        after_ws(aj)
    };
    if cur.len() > 0 {
        lemma_join_push(done, cur);
        if done.len() > 0 {
            lemma_read_all_append(join_words(done), seq![' '], Reading::Code);
            lemma_read_one(' ', Seq::empty(), aj);
            assert(seq![' '] + Seq::<char>::empty() =~= seq![' ']);
            lemma_read_all_append(join_words(done) + seq![' '], cur, Reading::Code);
        }
        assert(read_all(join_words(done.push(cur)), Reading::Code) == Some(ax));
    }
    if t.len() == 0 {
        if cur.len() == 0 {
            assert(done + words_from(t, cur) =~= done);
        } else {
            assert(done + words_from(t, cur) =~= done.push(cur));
        }
    } else if is_ws(t[0]) {
        let d2 = done + pending(cur);
        let rest = words_from(t.skip(1), Seq::empty());
        assert(done + words_from(t, cur) =~= d2 + rest);
        assert forall|k: int| 0 <= k < d2.len() implies is_word(#[trigger] d2[k]) by {
            if k < done.len() {
                assert(d2[k] == done[k]);
            } else {
                assert(d2[k] == cur);
            }
        }
        assert(read_step(ax, t[0]) == Some(after_ws(ax)));
        if cur.len() > 0 {
            assert(d2 =~= done.push(cur));
            lemma_collapse_reads(t.skip(1), Seq::empty(), d2, after_ws(ax), ax);
        } else {
            assert(d2 =~= done);
            lemma_collapse_reads(t.skip(1), Seq::empty(), d2, after_ws(ax), aj);
        }
    } else {
        let c = t[0];
        let b = read_step(ax, c)->0;
        let c2 = cur.push(c);
        assert(c2 =~= cur + seq![c]);
        lemma_read_all_append(cur, seq![c], pre);
        lemma_read_one(c, Seq::empty(), ax);
        assert(seq![c] + Seq::<char>::empty() =~= seq![c]);
        if cur.len() == 0 {
            assert(cur + seq![c] =~= seq![c]);
        }
        assert forall|k: int| 0 <= k < c2.len() implies !is_ws(#[trigger] c2[k]) by {
            if k < cur.len() {
                assert(c2[k] == cur[k]);
            }
        }
        lemma_collapse_reads(t.skip(1), c2, done, b, aj);
    }
}

proof fn lemma_read_skip(s: Seq<char>, i: int, a: Reading)
    requires
        0 <= i < s.len(),
    ensures
        read_all(s.skip(i), a) == match read_step(a, s[i]) {
            None => None,
            Some(b) => read_all(s.skip(i + 1), b),
        },
{
    assert(s.skip(i)[0] == s[i]);
    assert(s.skip(i).skip(1) =~= s.skip(i + 1));
}

/// Text that reads without opening a comment and holds no newline is
/// kept whole by the scan.
proof fn lemma_scrub_fixed(s: Seq<char>, i: int, a: Reading)
    requires
        0 <= i <= s.len(),
        read_all(s.skip(i), a) is Some,
        forall|k: int| 0 <= k < s.len() ==> !is_newline(#[trigger] s[k]),
        a is Code || a is AfterSlash || a is Str,
    ensures
        scrub(
            s,
            i,
            if a is Str {
                ScanState::StringLit
            } else {
                ScanState::Code
            },
        ) == s.skip(i),
    decreases s.len() - i,
{
    if i == s.len() {
        assert(s.skip(i) =~= Seq::<char>::empty());
    } else {
        let c = s[i];
        lemma_read_skip(s, i, a);
        if i + 1 < s.len() {
            lemma_read_skip(s, i + 1, Reading::AfterSlash);
            lemma_read_skip(s, i + 1, Reading::AfterBackslash);
        }
        assert(s.skip(i) =~= seq![c] + s.skip(i + 1));
        assert(!is_newline(c));
        if a is Str {
            if c == '\\' && i + 1 < s.len() {
                lemma_scrub_fixed(s, i + 2, Reading::Str);
                assert(s.skip(i) =~= seq![c, s[i + 1]] + s.skip(i + 2));
            } else if c == '"' {
                lemma_scrub_fixed(s, i + 1, Reading::Code);
            } else if c == '\\' {
                assert(s.skip(i + 1) =~= Seq::<char>::empty());
                assert(scrub(s, i + 1, ScanState::StringLit) == Seq::<char>::empty());
                assert(scrub(s, i, ScanState::StringLit) == seq![c] + scrub(
                    s,
                    i + 1,
                    ScanState::StringLit,
                ));
            } else {
                lemma_scrub_fixed(s, i + 1, Reading::Str);
            }
        } else {
            if c == '"' {
                lemma_scrub_fixed(s, i + 1, Reading::Str);
            } else if c == '/' {
                assert(a is Code);
                if i + 1 < s.len() {
                    assert(s[i + 1] != '/' && s[i + 1] != '*');
                }
                lemma_scrub_fixed(s, i + 1, Reading::AfterSlash);
            } else {
                lemma_scrub_fixed(s, i + 1, Reading::Code);
            }
        }
    }
}

/// A run of non-whitespace characters continues the word begun.
proof fn lemma_words_from_word(w: Seq<char>, cur: Seq<char>)
    requires
        forall|k: int| 0 <= k < w.len() ==> !is_ws(#[trigger] w[k]),
    ensures
        words_from(w, cur) == pending(cur + w),
    decreases w.len(),
{
    if w.len() == 0 {
        assert(cur + w =~= cur);
    } else {
        assert forall|k: int| 0 <= k < w.skip(1).len() implies !is_ws(#[trigger] w.skip(1)[k]) by {
            assert(w.skip(1)[k] == w[k + 1]);
        }
        lemma_words_from_word(w.skip(1), cur.push(w[0]));
        assert(cur.push(w[0]) + w.skip(1) =~= cur + w);
    }
}

/// A whitespace character splits the words of a text in two.
proof fn lemma_words_from_split(t: Seq<char>, sp: char, u: Seq<char>, cur: Seq<char>)
    requires
        is_ws(sp),
    ensures
        words_from(t + seq![sp] + u, cur) == words_from(t, cur) + words_from(u, Seq::empty()),
    decreases t.len(),
{
    let all = t + seq![sp] + u;
    if t.len() == 0 {
        assert(all[0] == sp);
        assert(all.skip(1) =~= u);
    } else {
        assert(all[0] == t[0]);
        assert(all.skip(1) =~= t.skip(1) + seq![sp] + u);
        if is_ws(t[0]) {
            lemma_words_from_split(t.skip(1), sp, u, Seq::empty());
            assert(pending(cur) + (words_from(t.skip(1), Seq::empty()) + words_from(
                u,
                Seq::empty(),
            )) =~= pending(cur) + words_from(t.skip(1), Seq::empty()) + words_from(
                u,
                Seq::empty(),
            ));
        } else {
            lemma_words_from_split(t.skip(1), sp, u, cur.push(t[0]));
        }
    }
}

/// Splitting joined words gives the words back.
proof fn lemma_words_of_join(ws: Seq<Seq<char>>)
    requires
        forall|k: int| 0 <= k < ws.len() ==> is_word(#[trigger] ws[k]),
    ensures
        words(join_words(ws)) == ws,
    decreases ws.len(),
{
    if ws.len() == 0 {
    } else {
        let w = ws.last();
        assert(is_word(ws[ws.len() - 1]));
        lemma_words_from_word(w, Seq::empty());
        assert(Seq::<char>::empty() + w =~= w);
        if ws.len() == 1 {
            assert(ws =~= seq![w]);
        } else {
            let d = ws.drop_last();
            assert forall|k: int| 0 <= k < d.len() implies is_word(#[trigger] d[k]) by {
                assert(d[k] == ws[k]);
            }
            lemma_words_of_join(d);
            lemma_words_from_split(join_words(d), ' ', w, Seq::empty());
            assert(d + seq![w] =~= ws);
        }
    }
}

/// Flattening is idempotent: flattening an already flattened script
/// gives it back unchanged.
pub proof fn lemma_flatten_idempotent(src: Seq<char>)
    ensures
        flattened(flattened(src)) == flattened(src),
{
    let x = scrub(src, 0, ScanState::Code);
    let ws = words(x);
    let r = join_words(ws);
    lemma_scrub_reads(src, 0, ScanState::Code);
    lemma_words_from_are_words(x, Seq::empty());
    assert(Seq::<Seq<char>>::empty() + ws =~= ws);
    lemma_collapse_reads(x, Seq::empty(), Seq::empty(), Reading::Code, Reading::Code);
    lemma_join_chars(ws);
    assert forall|k: int| 0 <= k < r.len() implies !is_newline(#[trigger] r[k]) by {
        assert(r[k] == ' ' || !is_ws(r[k]));
    }
    assert(r.skip(0) =~= r);
    lemma_scrub_fixed(r, 0, Reading::Code);
    lemma_words_of_join(ws);
}

} // verus!
