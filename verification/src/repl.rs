//! How the persistent `dw repl` child is launched: program and arguments,
//! including the `-i name=file` input bindings.

use vstd::prelude::*;
use vstd::string::StringExecFns;
use crate::text::{binding_text, pairs_view, push_binding};

verus! {

/// The abstract contents of a list of strings.
pub open spec fn strings_view(v: Seq<String>) -> Seq<Seq<char>> {
    v.map_values(|s: String| s@)
}

/// The `-i name=file` arguments for the input bindings, in order.
pub open spec fn input_args(inputs: Seq<(Seq<char>, Seq<char>)>) -> Seq<Seq<char>>
    decreases inputs.len(),
{
    if inputs.len() == 0 {
        Seq::empty()
    } else {
        input_args(inputs.drop_last()) + seq!["-i"@, binding_text(inputs.last())]
    }
}

/// The input arguments are two per binding, in the bindings' order: `-i`
/// and then `name=file`.
pub proof fn lemma_input_args_shape(inputs: Seq<(Seq<char>, Seq<char>)>)
    ensures
        input_args(inputs).len() == 2 * inputs.len(),
        forall|k: int|
            0 <= k < inputs.len() ==> input_args(inputs).subrange(2 * k, 2 * k + 2) == seq![
                "-i"@,
                (#[trigger] inputs[k]).0 + seq!['='] + inputs[k].1,
            ],
    decreases inputs.len(),
{
    if inputs.len() > 0 {
        let d = inputs.drop_last();
        lemma_input_args_shape(d);
        let a = input_args(inputs);
        let ad = input_args(d);
        assert(a == ad + seq!["-i"@, binding_text(inputs.last())]);
        assert forall|k: int| 0 <= k < inputs.len() implies a.subrange(2 * k, 2 * k + 2) == seq![
            "-i"@,
            (#[trigger] inputs[k]).0 + seq!['='] + inputs[k].1,
        ] by {
            if k < d.len() {
                assert(d[k] == inputs[k]);
                assert(a.subrange(2 * k, 2 * k + 2) =~= ad.subrange(2 * k, 2 * k + 2));
            } else {
                assert(a.subrange(2 * k, 2 * k + 2) =~= seq!["-i"@, binding_text(inputs.last())]);
            }
        }
    }
}

/// Appends the `-i name=file` arguments for `inputs` to `args`.
pub fn push_input_args(args: &mut Vec<String>, inputs: &[(String, String)])
    ensures
        strings_view(final(args)@) == strings_view(old(args)@) + input_args(pairs_view(inputs@)),
{
    let n = inputs.len();
    let ghost start = strings_view(args@);
    for i in 0..n
        invariant
            n == inputs@.len(),
            strings_view(args@) == start + input_args(pairs_view(inputs@.take(i as int))),
    {
        let ghost before = args@;
        args.push(String::from_str("-i"));
        let mut b = String::new();
        push_binding(&mut b, &inputs[i]);
        args.push(b);
        proof {
            let prev = pairs_view(inputs@.take(i as int));
            let next = pairs_view(inputs@.take(i + 1));
            assert(next.drop_last() =~= prev);
            assert(strings_view(args@) =~= strings_view(before) + seq!["-i"@, binding_text(next.last())]);
            assert(strings_view(args@) =~= start + input_args(next));
        }
    }
    assert(inputs@.take(n as int) =~= inputs@);
}

/// How to launch the REPL child process.
pub struct ReplConfig {
    pub program: String,
    pub args: Vec<String>,
}

impl ReplConfig {
    /// The config for launching the real `dw repl` (`repl -s`) with the
    /// given named inputs (`-i name=file` each).
    pub fn for_dw(dw_path: &str, inputs: &[(String, String)]) -> (r: ReplConfig)
        ensures
            r.program@ == dw_path@,
            strings_view(r.args@) == seq!["repl"@, "-s"@] + input_args(pairs_view(inputs@)),
    {
        let mut args: Vec<String> = Vec::new();
        args.push(String::from_str("repl"));
        args.push(String::from_str("-s"));
        assert(strings_view(args@) =~= seq!["repl"@, "-s"@]);
        push_input_args(&mut args, inputs);
        ReplConfig { program: String::from_str(dw_path), args }
    }
}


/// The REPL's prompt, `>>> `, as bytes.
pub open spec fn prompt() -> Seq<u8> {
    seq![62u8, 62u8, 62u8, 32u8]
}

/// Whether `acc` ends with the prompt.
pub open spec fn ends_with_prompt(acc: Seq<u8>) -> bool {
    acc.len() >= 4 && acc.skip(acc.len() - 4) == prompt()
}

/// If the output read so far ends with the prompt, removes the prompt and
/// reports that the reply is complete.
pub fn strip_prompt(acc: &mut Vec<u8>) -> (seen: bool)
    ensures
        seen == ends_with_prompt(old(acc)@),
        seen ==> final(acc)@ == old(acc)@.take(old(acc)@.len() - 4),
        !seen ==> final(acc)@ == old(acc)@,
{
    let n = acc.len();
    if n >= 4 && acc[n - 4] == 62u8 && acc[n - 3] == 62u8 && acc[n - 2] == 62u8 && acc[n - 1] == 32u8 {
        assert(acc@.skip(n - 4) =~= prompt());
        let _tail = acc.split_off(n - 4);
        true
    } else {
        proof {
            if n >= 4 {
                let t = acc@.skip(n - 4);
                if t == prompt() {
                    assert(t[0] == acc@[n - 4]);
                    assert(t[1] == acc@[n - 3]);
                    assert(t[2] == acc@[n - 2]);
                    assert(t[3] == acc@[n - 1]);
                }
            }
        }
        false
    }
}

/// The text of a child's reply: its bytes decoded as UTF-8 (invalid
/// sequences replaced) and trimmed of surrounding whitespace.
pub open spec fn reply_text_spec(bytes: Seq<u8>) -> Seq<char> {
    crate::text::trimmed(crate::text::utf8_lossy(bytes))
}

/// Decodes and trims a child's reply.
pub fn reply_text(bytes: &[u8]) -> (r: String)
    ensures
        r@ == reply_text_spec(bytes@),
{
    let text = crate::text::decode_lossy(bytes);
    crate::text::trim(text.as_str())
}


/// What the supervisor does once an evaluation attempt has finished.
#[derive(Debug, Clone, Copy, PartialEq, Eq, Structural)]
pub enum AfterEval {
    /// Hand back the attempt's result.
    ReturnResult,
    /// Start a fresh child and try the same document once more.
    RespawnAndRetry,
    /// Give up, reporting the error of the first attempt.
    ReturnFirstError,
}

/// The supervisor's policy: a successful attempt is returned; a failed
/// first attempt is retried once on a freshly spawned child; a failed
/// retry reports the first attempt's error.
pub fn after_eval(retrying: bool, succeeded: bool) -> (r: AfterEval)
    ensures
        succeeded ==> r == AfterEval::ReturnResult,
        !succeeded && !retrying ==> r == AfterEval::RespawnAndRetry,
        !succeeded && retrying ==> r == AfterEval::ReturnFirstError,
{
    if succeeded {
        AfterEval::ReturnResult
    } else if retrying {
        AfterEval::ReturnFirstError
    } else {
        AfterEval::RespawnAndRetry
    }
}

} // verus!
