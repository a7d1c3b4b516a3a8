//! The one-line status header printed above each eval's result in watch
//! mode: script path, bound inputs, run duration, last-run time.

use vstd::prelude::*;
use vstd::string::StringExecFns;
use crate::span::{SpanStyle, paint_dimmed, painted};
use crate::text::{
    decimal, push_decimal, push_char, push_bindings, join_sep, binding_texts, pairs_view,
};

verus! {

/// `n` written with at least two digits.
pub open spec fn two_digits(n: nat) -> Seq<char> {
    if n < 10 {
        seq!['0'] + decimal(n)
    } else {
        decimal(n)
    }
}

/// `HH:MM:SS UTC` for the time of day `secs` seconds after the epoch.
pub open spec fn hms_utc(secs: nat) -> Seq<char> {
    let sod = secs % 86400;
    two_digits(sod / 3600) + seq![':'] + two_digits((sod % 3600) / 60) + seq![':'] + two_digits(
        sod % 60,
    ) + " UTC"@
}

fn push_two_digits(out: &mut String, n: u64)
    ensures
        final(out)@ == old(out)@ + two_digits(n as nat),
{
    if n < 10 {
        push_char(out, '0');
    }
    push_decimal(out, n as u128);
    assert(final(out)@ =~= old(out)@ + two_digits(n as nat));
}

/// Formats `secs` (seconds since the Unix epoch; earlier times count as
/// the epoch itself) as the time of day `HH:MM:SS UTC`.
pub fn format_hms_utc(secs: u64) -> (r: String)
    ensures
        r@ == hms_utc(secs as nat),
{
    let sod = secs % 86400;
    let mut out = String::new();
    push_two_digits(&mut out, sod / 3600);
    push_char(&mut out, ':');
    push_two_digits(&mut out, (sod % 3600) / 60);
    push_char(&mut out, ':');
    push_two_digits(&mut out, sod % 60);
    out.append(" UTC");
    assert(out@ =~= hms_utc(secs as nat));
    out
}

/// The time of day repeats every day: a timestamp and the same one a day
/// later print alike.
pub proof fn lemma_hms_daily(secs: nat)
    ensures
        hms_utc(secs + 86400) == hms_utc(secs),
{
    assert((secs + 86400) % 86400 == secs % 86400) by (nonlinear_arith);
}

/// The bound inputs as printed in the header: `none`, or the bindings
/// `name=file` separated by `, `.
pub open spec fn inputs_text(inputs: Seq<(Seq<char>, Seq<char>)>) -> Seq<char> {
    if inputs.len() == 0 {
        "none"@
    } else {
        join_sep(binding_texts(inputs), ", "@)
    }
}

/// The header line, where `lit[k]` says whether the `k`-th label was
/// colorized.
pub open spec fn header_text(
    script: Seq<char>,
    inputs: Seq<(Seq<char>, Seq<char>)>,
    duration_ms: nat,
    at_secs: nat,
    lit: Seq<bool>,
) -> Seq<char> {
    painted(SpanStyle::Dimmed, "script:"@, lit[0]) + " "@ + script + "  "@ + painted(
        SpanStyle::Dimmed,
        "inputs:"@,
        lit[1],
    ) + " "@ + inputs_text(inputs) + "  "@ + painted(SpanStyle::Dimmed, "took:"@, lit[2]) + " "@
        + decimal(duration_ms) + "ms"@ + "  "@ + painted(SpanStyle::Dimmed, "at:"@, lit[3]) + " "@
        + hms_utc(at_secs)
}

/// Appends the label `text` dimmed, and reports whether it was colorized.
fn push_label(out: &mut String, text: &str) -> (lit: Ghost<bool>)
    ensures
        final(out)@ == old(out)@ + painted(SpanStyle::Dimmed, text@, lit@),
{
    let piece = paint_dimmed(text);
    out.append(piece.as_str());
    Ghost(piece@ != text@)
}

/// Renders the status header line for one eval: the script, its bound
/// inputs, how long the eval took in milliseconds, and the time of day
/// (UTC) it ran at, `at_secs` being seconds since the Unix epoch.
pub fn render_header(
    script: &str,
    inputs: &[(String, String)],
    duration_ms: u128,
    at_secs: u64,
) -> (r: String)
    ensures
        exists|lit: Seq<bool>|
            lit.len() == 4 && r@ == #[trigger] header_text(
                script@,
                pairs_view(inputs@),
                duration_ms as nat,
                at_secs as nat,
                lit,
            ),
{
    let mut out = String::new();
    let l0 = push_label(&mut out, "script:");
    out.append(" ");
    out.append(script);
    out.append("  ");
    let l1 = push_label(&mut out, "inputs:");
    out.append(" ");
    if inputs.len() == 0 {
        out.append("none");
    } else {
        push_bindings(&mut out, inputs, ", ");
    }
    out.append("  ");
    let l2 = push_label(&mut out, "took:");
    out.append(" ");
    push_decimal(&mut out, duration_ms);
    out.append("ms");
    out.append("  ");
    let l3 = push_label(&mut out, "at:");
    out.append(" ");
    let hms = format_hms_utc(at_secs);
    out.append(hms.as_str());
    proof {
        let lit = seq![l0@, l1@, l2@, l3@];
        assert(out@ =~= header_text(
            script@,
            pairs_view(inputs@),
            duration_ms as nat,
            at_secs as nat,
            lit,
        ));
    }
    out
}

} // verus!
