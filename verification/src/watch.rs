//! Watch mode: the script and its bound inputs, how a `-i name=file`
//! argument is read, which files are polled, and the text printed for
//! one evaluation.

use vstd::prelude::*;
use vstd::string::StringExecFns;
use crate::colorize::{colorize, ansi_stripped};
use crate::dwl_highlight::highlight;
use crate::lex::{Lang, runs};
use crate::span::rendering;
use crate::status::{render_header, header_text};
use crate::text::{chars_of, pairs_view, push_char};

verus! {

/// The script being watched and its `-i name=file` input bindings.
pub struct WatchTarget {
    pub script: String,
    pub inputs: Vec<(String, String)>,
}

/// Index of the first `=` in `s` from position `i` on, if any.
pub open spec fn first_eq(s: Seq<char>, i: int) -> Option<int>
    decreases s.len() - i,
{
    if i < 0 || i >= s.len() {
        None
    } else if s[i] == '=' {
        Some(i)
    } else {
        first_eq(s, i + 1)
    }
}

/// How a `-i` argument reads: the name before the first `=` and the file
/// after it, both non-empty; anything else is refused with a message.
pub open spec fn parsed_input(s: Seq<char>) -> Result<(Seq<char>, Seq<char>), Seq<char>> {
    match first_eq(s, 0) {
        Some(k) if k > 0 && k + 1 < s.len() => Ok((s.take(k), s.skip(k + 1))),
        _ => Err("invalid input '"@ + s + "', expected name=file"@),
    }
}

proof fn lemma_first_eq_bounds(s: Seq<char>, i: int)
    requires
        0 <= i,
    ensures
        first_eq(s, i) matches Some(k) ==> i <= k < s.len() && s[k] == '=',
        first_eq(s, i) is None ==> forall|x: int| i <= x < s.len() ==> s[x] != '=',
    decreases s.len() - i,
{
    if i < s.len() && s[i] != '=' {
        lemma_first_eq_bounds(s, i + 1);
    }
}

/// A binding written as `name=file`, with a non-empty name free of `=`
/// and a non-empty file, reads back as that name and file.
pub proof fn lemma_parse_input_round_trip(name: Seq<char>, file: Seq<char>)
    requires
        name.len() > 0,
        !name.contains('='),
        file.len() > 0,
    ensures
        parsed_input(name + seq!['='] + file) == Ok::<(Seq<char>, Seq<char>), Seq<char>>(
            (name, file),
        ),
{
    let s = name + seq!['='] + file;
    let k = name.len() as int;
    assert forall|x: int| 0 <= x < k implies s[x] != '=' by {
        assert(s[x] == name[x]);
        assert(name.contains(name[x]));
    }
    assert forall|i: int| 0 <= i <= k implies first_eq(s, i) == Some(k) by {
        lemma_first_eq_from(s, i, k);
    }
    assert(s.take(k) =~= name);
    assert(s.skip(k + 1) =~= file);
}

proof fn lemma_first_eq_from(s: Seq<char>, i: int, k: int)
    requires
        0 <= i <= k < s.len(),
        s[k] == '=',
        forall|x: int| 0 <= x < k ==> s[x] != '=',
    ensures
        first_eq(s, i) == Some(k),
    decreases k - i,
{
    if i < k {
        lemma_first_eq_from(s, i + 1, k);
    }
}

/// Parses a `-i name=file` argument into `(name, file)`.
pub fn parse_input(s: &str) -> (r: Result<(String, String), String>)
    ensures
        match r {
            Ok((name, file)) => parsed_input(s@) == Ok::<(Seq<char>, Seq<char>), Seq<char>>(
                (name@, file@),
            ),
            Err(msg) => parsed_input(s@) == Err::<(Seq<char>, Seq<char>), Seq<char>>(msg@),
        },
{
    let chars = chars_of(s);
    let n = chars.len();
    let mut k: usize = 0;
    while k < n && chars[k] != '='
        invariant
            k <= n == chars@.len(),
            chars@ == s@,
            first_eq(s@, k as int) == first_eq(s@, 0),
        decreases n - k,
    {
        k = k + 1;
    }
    proof {
        lemma_first_eq_bounds(s@, k as int);
    }
    if k < n && k > 0 && k + 1 < n {
        let name = crate::lex::chars_to_string(&chars, 0, k);
        let file = crate::lex::chars_to_string(&chars, k + 1, n);
        assert(s@.take(k as int) =~= chars@.subrange(0, k as int));
        assert(s@.skip(k + 1) =~= chars@.subrange(k + 1, n as int));
        Ok((name, file))
    } else {
        let mut msg = String::new();
        msg.append("invalid input '");
        msg.append(s);
        msg.append("', expected name=file");
        Err(msg)
    }
}

/// The files polled for changes: the script, then each input's file.
pub open spec fn watched_paths_spec(script: Seq<char>, inputs: Seq<(Seq<char>, Seq<char>)>) -> Seq<
    Seq<char>,
> {
    seq![script] + inputs.map_values(|p: (Seq<char>, Seq<char>)| p.1)
}

/// All paths whose modification time is polled for `target`.
pub fn watched_paths(target: &WatchTarget) -> (r: Vec<String>)
    ensures
        r@.map_values(|p: String| p@) == watched_paths_spec(
            target.script@,
            pairs_view(target.inputs@),
        ),
{
    let mut paths: Vec<String> = Vec::new();
    paths.push(target.script.clone());
    let n = target.inputs.len();
    for i in 0..n
        invariant
            n == target.inputs@.len(),
            paths@.map_values(|p: String| p@) == watched_paths_spec(
                target.script@,
                pairs_view(target.inputs@.take(i as int)),
            ),
    {
        let ghost before = paths@;
        paths.push(target.inputs[i].1.clone());
        let ghost want = watched_paths_spec(
            target.script@,
            pairs_view(target.inputs@.take(i + 1)),
        );
        let ghost prev = watched_paths_spec(
            target.script@,
            pairs_view(target.inputs@.take(i as int)),
        );
        assert(want.len() == prev.len() + 1);
        assert forall|k: int| 0 <= k < want.len() implies #[trigger] want[k] == paths@[k]@ by {
            if k < prev.len() {
                assert(before[k]@ == prev[k]);
                if k > 0 {
                    assert(want[k] == target.inputs@[k - 1].1@);
                    assert(prev[k] == target.inputs@[k - 1].1@);
                }
            } else {
                assert(want[k] == target.inputs@[i as int].1@);
            }
        }
        assert(paths@.map_values(|p: String| p@) =~= watched_paths_spec(
            target.script@,
            pairs_view(target.inputs@.take(i + 1)),
        ));
    }
    assert(target.inputs@.take(n as int) =~= target.inputs@);
    paths
}

/// A file's modification time as plain values: whether it is at or after
/// the Unix epoch, and its distance from the epoch.
#[derive(Debug, Clone, Copy, PartialEq, Eq, Structural)]
pub struct ModTime {
    pub after_epoch: bool,
    pub secs: u64,
    pub nanos: u32,
}

fn same_time(a: Option<ModTime>, b: Option<ModTime>) -> (r: bool)
    ensures
        r == (a == b),
{
    match (a, b) {
        (None, None) => true,
        (Some(x), Some(y)) => x.after_epoch == y.after_epoch && x.secs == y.secs && x.nanos
            == y.nanos,
        _ => false,
    }
}

/// One poll of the watch loop: whether the watched files' modification
/// times (`None` for a file that cannot be read) differ from those of the
/// last poll, in which case the script is evaluated again. The times just
/// read become the last ones.
pub fn poll(last: &mut Vec<Option<ModTime>>, current: Vec<Option<ModTime>>) -> (changed: bool)
    ensures
        changed == (old(last)@ != current@),
        final(last)@ == current@,
{
    let mut same = last.len() == current.len();
    if same {
        let n = current.len();
        let mut k: usize = 0;
        while k < n && same
            invariant
                n == current@.len() == last@.len(),
                k <= n,
                same ==> forall|j: int| 0 <= j < k ==> last@[j] == current@[j],
                !same ==> last@ != current@,
            decreases n - k,
        {
            if !same_time(last[k], current[k]) {
                assert(last@[k as int] != current@[k as int]);
                same = false;
            }
            k = k + 1;
        }
        proof {
            if same {
                assert(last@ =~= current@);
            }
        }
    }
    *last = current;
    !same
}

/// What one evaluation printed: the header line, then the result
/// colorized as structured output, or the error message (prefixed with
/// `error: `) highlighted as DataWeave, since `dw` echoes source snippets
/// in its errors.
pub open spec fn eval_report_text(
    header: Seq<char>,
    outcome: Result<Seq<char>, Seq<char>>,
    lit: Seq<bool>,
) -> Seq<char> {
    match outcome {
        Ok(text) => header + seq!['\n'] + rendering(runs(Lang::Data, text), lit),
        Err(err) => header + seq!['\n'] + rendering(
            runs(Lang::DataWeave, ansi_stripped("error: "@ + err)),
            lit,
        ),
    }
}

pub open spec fn outcome_view(outcome: Result<String, String>) -> Result<Seq<char>, Seq<char>> {
    match outcome {
        Ok(t) => Ok(t@),
        Err(e) => Err(e@),
    }
}

/// The text printed for one evaluation of the watched script: the status
/// header, a newline, and the colorized result or highlighted error.
pub fn eval_report(
    target: &WatchTarget,
    duration_ms: u128,
    at_secs: u64,
    outcome: Result<String, String>,
) -> (r: String)
    ensures
        exists|hl: Seq<bool>, bl: Seq<bool>|
            hl.len() == 4 && r@ == #[trigger] eval_report_text(
                header_text(
                    target.script@,
                    pairs_view(target.inputs@),
                    duration_ms as nat,
                    at_secs as nat,
                    hl,
                ),
                outcome_view(outcome),
                bl,
            ),
        exists|hl: Seq<bool>|
            hl.len() == 4 && r@.take(
                #[trigger] header_text(
                    target.script@,
                    pairs_view(target.inputs@),
                    duration_ms as nat,
                    at_secs as nat,
                    hl,
                ).len() as int + 1,
            ) == header_text(
                target.script@,
                pairs_view(target.inputs@),
                duration_ms as nat,
                at_secs as nat,
                hl,
            ).push('\n'),
{
    let header = render_header(
        target.script.as_str(),
        target.inputs.as_slice(),
        duration_ms,
        at_secs,
    );
    let ghost hl = choose|hl: Seq<bool>|
        hl.len() == 4 && header@ == #[trigger] header_text(
            target.script@,
            pairs_view(target.inputs@),
            duration_ms as nat,
            at_secs as nat,
            hl,
        );
    let ghost h = header@;
    let ghost ov = outcome_view(outcome);
    let mut out = header;
    push_char(&mut out, '\n');
    match outcome {
        Ok(text) => {
            let body = colorize(text.as_str());
            out.append(body.as_str());
            proof {
                let bl = choose|bl: Seq<bool>|
                    bl.len() == runs(Lang::Data, text@).len() && body@ == #[trigger] rendering(
                        runs(Lang::Data, text@),
                        bl,
                    );
                assert(out@ =~= eval_report_text(h, ov, bl));
            }
        },
        Err(err) => {
            let mut msg = String::new();
            msg.append("error: ");
            msg.append(err.as_str());
            let body = highlight(msg.as_str());
            out.append(body.as_str());
            proof {
                let p = ansi_stripped(msg@);
                let bl = choose|bl: Seq<bool>|
                    bl.len() == runs(Lang::DataWeave, p).len() && body@ == #[trigger] rendering(
                        runs(Lang::DataWeave, p),
                        bl,
                    );
                assert(msg@ =~= "error: "@ + err@);
                assert(out@ =~= eval_report_text(h, ov, bl));
            }
        },
    }
    proof {
        assert(out@.take(h.len() as int + 1) =~= h.push('\n'));
    }
    out
}

/// Whatever the outcome, the report of an evaluation begins with the
/// status header and a newline.
pub proof fn lemma_report_begins_with_header(
    header: Seq<char>,
    outcome: Result<Seq<char>, Seq<char>>,
    lit: Seq<bool>,
)
    ensures
        eval_report_text(header, outcome, lit).take(header.len() as int + 1) == header.push('\n'),
{
    let r = eval_report_text(header, outcome, lit);
    match outcome {
        Ok(text) => {
            assert(r.take(header.len() as int + 1) =~= header.push('\n'));
        },
        Err(err) => {
            assert(r.take(header.len() as int + 1) =~= header.push('\n'));
        },
    }
}

} // verus!
