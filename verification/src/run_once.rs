//! The spawn-per-eval fallback: how `dw run` is invoked for one
//! evaluation of a script written to a file.

use vstd::prelude::*;
use vstd::string::StringExecFns;
use crate::repl::{strings_view, input_args, push_input_args, lemma_input_args_shape};
use crate::text::pairs_view;

verus! {

/// How to invoke `dw run` for one evaluation.
pub struct RunOnceConfig {
    pub program: String,
    pub inputs: Vec<(String, String)>,
    /// The module resolution path (`--path`), if any.
    pub module_search_path: Option<String>,
}

pub open spec fn opt_view(o: Option<String>) -> Option<Seq<char>> {
    match o {
        Some(s) => Some(s@),
        None => None,
    }
}

/// The arguments of `dw run` for `script_file`: `run -s -f <file>`, the
/// `-i name=file` input bindings, and `--path=<p>` when a module path is
/// set.
pub open spec fn run_args(
    script_file: Seq<char>,
    inputs: Seq<(Seq<char>, Seq<char>)>,
    module_search_path: Option<Seq<char>>,
) -> Seq<Seq<char>> {
    seq!["run"@, "-s"@, "-f"@, script_file] + input_args(inputs) + match module_search_path {
        Some(p) => seq!["--path="@ + p],
        None => Seq::empty(),
    }
}

fn copy_pairs(v: &[(String, String)]) -> (r: Vec<(String, String)>)
    ensures
        pairs_view(r@) == pairs_view(v@),
{
    let mut out: Vec<(String, String)> = Vec::new();
    let n = v.len();
    for i in 0..n
        invariant
            n == v@.len(),
            pairs_view(out@) == pairs_view(v@.take(i as int)),
    {
        let a = v[i].0.clone();
        let b = v[i].1.clone();
        let ghost before = out@;
        out.push((a, b));
        proof {
            let want = pairs_view(v@.take(i + 1));
            assert(pairs_view(before) == pairs_view(v@.take(i as int)));
            assert(pairs_view(before).len() == before.len());
            assert(before.len() == i);
            assert(out@ == before.push((a, b)));
            assert(out@.len() == i + 1);
            assert forall|k: int| 0 <= k < want.len() implies #[trigger] pairs_view(out@)[k]
                == want[k] by {
                if k < i {
                    assert(pairs_view(out@)[k] == pairs_view(before)[k]);
                }
            }
            assert(pairs_view(out@) =~= want);
        }
    }
    assert(v@.take(n as int) =~= v@);
    out
}

impl RunOnceConfig {
    /// The config for the real `dw run`.
    pub fn for_dw(dw_path: &str, inputs: &[(String, String)], module_search_path: Option<&str>) -> (r:
        RunOnceConfig)
        ensures
            r.program@ == dw_path@,
            pairs_view(r.inputs@) == pairs_view(inputs@),
            opt_view(r.module_search_path) == match module_search_path {
                Some(p) => Some(p@),
                None => None::<Seq<char>>,
            },
    {
        let m = match module_search_path {
            Some(p) => Some(String::from_str(p)),
            None => None,
        };
        RunOnceConfig { program: String::from_str(dw_path), inputs: copy_pairs(inputs), module_search_path: m }
    }

    /// The `dw run` arguments for evaluating `script_file`.
    pub fn args(&self, script_file: &str) -> (r: Vec<String>)
        ensures
            strings_view(r@) == run_args(
                script_file@,
                pairs_view(self.inputs@),
                opt_view(self.module_search_path),
            ),
            strings_view(r@).len() == 4 + 2 * self.inputs@.len() + if self.module_search_path is Some {
                1int
            } else {
                0int
            },
            forall|k: int|
                0 <= k < self.inputs@.len() ==> strings_view(r@).subrange(4 + 2 * k, 6 + 2 * k)
                    == seq!["-i"@, (#[trigger] self.inputs@[k]).0@ + seq!['='] + self.inputs@[k].1@],
    {
        let mut args: Vec<String> = Vec::new();
        args.push(String::from_str("run"));
        args.push(String::from_str("-s"));
        args.push(String::from_str("-f"));
        args.push(String::from_str(script_file));
        assert(strings_view(args@) =~= seq!["run"@, "-s"@, "-f"@, script_file@]);
        push_input_args(&mut args, self.inputs.as_slice());
        let ghost mid = strings_view(args@);
        match &self.module_search_path {
            Some(p) => {
                let mut a = String::from_str("--path=");
                a.append(p.as_str());
                args.push(a);
                assert(strings_view(args@) =~= mid + seq!["--path="@ + p@]);
            },
            None => {
                assert(strings_view(args@) =~= mid + Seq::<Seq<char>>::empty());
            },
        }
        proof {
            let pv = pairs_view(self.inputs@);
            lemma_run_args_shape(script_file@, pv, opt_view(self.module_search_path));
            assert forall|k: int| 0 <= k < self.inputs@.len() implies strings_view(args@).subrange(
                4 + 2 * k,
                6 + 2 * k,
            ) == seq!["-i"@, (#[trigger] self.inputs@[k]).0@ + seq!['='] + self.inputs@[k].1@] by {
                assert(pv[k] == (self.inputs@[k].0@, self.inputs@[k].1@));
            }
        }
        args
    }
}


/// The `dw run` arguments: `run -s -f <file>`, then exactly one `-i`,
/// `name=file` pair per input binding in the bindings' order, then
/// `--path=<p>` when a module path is set, and nothing else.
pub proof fn lemma_run_args_shape(
    script_file: Seq<char>,
    inputs: Seq<(Seq<char>, Seq<char>)>,
    module_search_path: Option<Seq<char>>,
)
    ensures
        run_args(script_file, inputs, module_search_path).len() == 4 + 2 * inputs.len() + if module_search_path is Some {
            1int
        } else {
            0int
        },
        run_args(script_file, inputs, module_search_path).take(4) == seq![
            "run"@,
            "-s"@,
            "-f"@,
            script_file,
        ],
        forall|k: int|
            0 <= k < inputs.len() ==> run_args(script_file, inputs, module_search_path).subrange(
                4 + 2 * k,
                6 + 2 * k,
            ) == seq!["-i"@, (#[trigger] inputs[k]).0 + seq!['='] + inputs[k].1],
        module_search_path matches Some(p) ==> run_args(
            script_file,
            inputs,
            module_search_path,
        ).last() == "--path="@ + p,
{
    lemma_input_args_shape(inputs);
    let a = run_args(script_file, inputs, module_search_path);
    let head = seq!["run"@, "-s"@, "-f"@, script_file];
    let mid = input_args(inputs);
    let tail = match module_search_path {
        Some(p) => seq!["--path="@ + p],
        None => Seq::<Seq<char>>::empty(),
    };
    assert(a == head + mid + tail);
    assert(a.take(4) =~= head);
    assert forall|k: int| 0 <= k < inputs.len() implies a.subrange(4 + 2 * k, 6 + 2 * k) == seq![
        "-i"@,
        (#[trigger] inputs[k]).0 + seq!['='] + inputs[k].1,
    ] by {
        assert(a.subrange(4 + 2 * k, 6 + 2 * k) =~= mid.subrange(2 * k, 2 * k + 2));
    }
}

/// `dw run` gets the same `-i` arguments as `dw repl` for the same
/// bindings.
pub proof fn lemma_run_and_repl_share_inputs(
    script_file: Seq<char>,
    inputs: Seq<(Seq<char>, Seq<char>)>,
    module_search_path: Option<Seq<char>>,
)
    ensures
        run_args(script_file, inputs, module_search_path).subrange(4, 4 + 2 * (inputs.len() as int))
            == (seq!["repl"@, "-s"@] + input_args(inputs)).subrange(2, 2 + 2 * (inputs.len() as int)),
{
    lemma_input_args_shape(inputs);
    assert(run_args(script_file, inputs, module_search_path).subrange(4, 4 + 2 * (inputs.len() as int))
        =~= input_args(inputs));
    assert((seq!["repl"@, "-s"@] + input_args(inputs)).subrange(2, 2 + 2 * (inputs.len() as int))
        =~= input_args(inputs));
}

} // verus!
