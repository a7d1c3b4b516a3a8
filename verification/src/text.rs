//! Text helpers: characters of a string, decimal notation, joined lists,
//! decoding and trimming.

use vstd::prelude::*;
use vstd::string::StringExecFns;

verus! {

/// Appends one character to `s` (`String::push`).
#[verifier::external_body]
pub fn push_char(s: &mut String, c: char)
    ensures
        final(s)@ == old(s)@.push(c),
{
    s.push(c);
}

/// The characters of `s`, in order.
pub fn chars_of(s: &str) -> (r: Vec<char>)
    ensures
        r@ == s@,
{
    let mut r: Vec<char> = Vec::new();
    for c in it: s.chars()
        invariant
            r@ == it.seq().take(it.index() as int),
            it.seq() == s@,
    {
        r.push(c);
    }
    r
}


/// `parts` joined with `sep` between neighbours.
pub open spec fn join_sep(parts: Seq<Seq<char>>, sep: Seq<char>) -> Seq<char>
    decreases parts.len(),
{
    if parts.len() == 0 {
        Seq::empty()
    } else if parts.len() == 1 {
        parts[0]
    } else {
        join_sep(parts.drop_last(), sep) + sep + parts.last()
    }
}

/// The abstract contents of a list of name/file bindings.
pub open spec fn pairs_view(v: Seq<(String, String)>) -> Seq<(Seq<char>, Seq<char>)> {
    v.map_values(|p: (String, String)| (p.0@, p.1@))
}

/// A binding printed as `name=file`.
pub open spec fn binding_text(p: (Seq<char>, Seq<char>)) -> Seq<char> {
    p.0 + seq!['='] + p.1
}

/// Each binding printed as `name=file`.
pub open spec fn binding_texts(v: Seq<(Seq<char>, Seq<char>)>) -> Seq<Seq<char>> {
    v.map_values(|p: (Seq<char>, Seq<char>)| binding_text(p))
}

/// The character of decimal digit `d`.
pub open spec fn digit_char(d: nat) -> char {
    if d == 0 {
        '0'
    } else if d == 1 {
        '1'
    } else if d == 2 {
        '2'
    } else if d == 3 {
        '3'
    } else if d == 4 {
        '4'
    } else if d == 5 {
        '5'
    } else if d == 6 {
        '6'
    } else if d == 7 {
        '7'
    } else if d == 8 {
        '8'
    } else {
        '9'
    }
}

/// The decimal notation of `n`, without leading zeros.
pub open spec fn decimal(n: nat) -> Seq<char>
    decreases n,
{
    if n < 10 {
        seq![digit_char(n)]
    } else {
        decimal(n / 10).push(digit_char(n % 10))
    }
}

fn digit_to_char(d: u8) -> (c: char)
    requires
        d < 10,
    ensures
        c == digit_char(d as nat),
{
    match d {
        0 => '0',
        1 => '1',
        2 => '2',
        3 => '3',
        4 => '4',
        5 => '5',
        6 => '6',
        7 => '7',
        8 => '8',
        _ => '9',
    }
}

/// Appends the decimal notation of `n` to `out`.
pub fn push_decimal(out: &mut String, n: u128)
    ensures
        final(out)@ == old(out)@ + decimal(n as nat),
    decreases n,
{
    if n < 10 {
        push_char(out, digit_to_char(n as u8));
        assert(old(out)@.push(digit_char(n as nat)) =~= old(out)@ + decimal(n as nat));
    } else {
        push_decimal(out, n / 10);
        push_char(out, digit_to_char((n % 10) as u8));
        assert(old(out)@ + decimal((n / 10) as nat) + seq![digit_char((n % 10) as nat)]
            =~= old(out)@ + decimal(n as nat));
    }
}

/// Appends `name=file` to `out`.
pub fn push_binding(out: &mut String, p: &(String, String))
    ensures
        final(out)@ == old(out)@ + binding_text((p.0@, p.1@)),
{
    out.append(p.0.as_str());
    push_char(out, '=');
    out.append(p.1.as_str());
    assert(final(out)@ =~= old(out)@ + binding_text((p.0@, p.1@)));
}

/// Appends the bindings as `name=file`, separated by `sep`.
pub fn push_bindings(out: &mut String, v: &[(String, String)], sep: &str)
    ensures
        final(out)@ == old(out)@ + join_sep(binding_texts(pairs_view(v@)), sep@),
{
    let n = v.len();
    let ghost start = out@;
    for i in 0..n
        invariant
            n == v@.len(),
            out@ == start + join_sep(binding_texts(pairs_view(v@.take(i as int))), sep@),
    {
        let ghost prev = binding_texts(pairs_view(v@.take(i as int)));
        let ghost next = binding_texts(pairs_view(v@.take(i + 1)));
        assert(next.drop_last() =~= prev);
        if i > 0 {
            out.append(sep);
        }
        push_binding(out, &v[i]);
        assert(out@ =~= start + join_sep(next, sep@));
    }
    assert(v@.take(n as int) =~= v@);
}


/// The name for `String::from_utf8_lossy`: the text of `bytes` with each
/// invalid UTF-8 sequence replaced by U+FFFD.
pub uninterp spec fn utf8_lossy(bytes: Seq<u8>) -> Seq<char>;

/// `String::from_utf8_lossy(bytes).into_owned()`. Its documentation says
/// that valid UTF-8 comes back unchanged; for other input the contract
/// only names the result.
#[verifier::external_body]
pub fn decode_lossy(bytes: &[u8]) -> (r: String)
    ensures
        r@ == utf8_lossy(bytes@),
        vstd::utf8::valid_utf8(bytes@) ==> r@ == vstd::utf8::decode_utf8(bytes@),
{
    String::from_utf8_lossy(bytes).into_owned()
}

/// Index of the first non-whitespace character of `s` at or after `i`.
pub open spec fn trim_start(s: Seq<char>, i: int) -> int
    decreases s.len() - i,
{
    if 0 <= i < s.len() && crate::flatten::is_ws(s[i]) {
        trim_start(s, i + 1)
    } else {
        i
    }
}

/// Index just past the last non-whitespace character of `s` before `j`,
/// but not below `a`.
pub open spec fn trim_end(s: Seq<char>, a: int, j: int) -> int
    decreases j - a,
{
    if a < j && crate::flatten::is_ws(s[j - 1]) {
        trim_end(s, a, j - 1)
    } else {
        j
    }
}

/// `s` without leading and trailing whitespace.
pub open spec fn trimmed(s: Seq<char>) -> Seq<char> {
    let a = trim_start(s, 0);
    s.subrange(a, trim_end(s, a, s.len() as int))
}

/// `s` without leading and trailing whitespace (as `str::trim`).
pub fn trim(s: &str) -> (r: String)
    ensures
        r@ == trimmed(s@),
{
    let c = chars_of(s);
    let n = c.len();
    let mut a: usize = 0;
    while a < n && crate::flatten::is_whitespace(c[a])
        invariant
            n == c@.len(),
            c@ == s@,
            a <= n,
            trim_start(s@, a as int) == trim_start(s@, 0),
        decreases n - a,
    {
        a = a + 1;
    }
    let mut b: usize = n;
    while b > a && crate::flatten::is_whitespace(c[b - 1])
        invariant
            n == c@.len(),
            c@ == s@,
            a <= b <= n,
            trim_end(s@, a as int, b as int) == trim_end(s@, a as int, n as int),
        decreases b - a,
    {
        b = b - 1;
    }
    crate::lex::chars_to_string(&c, a, b)
}

} // verus!
