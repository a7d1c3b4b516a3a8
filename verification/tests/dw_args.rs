use blazewvr::repl::{after_eval, reply_text, strip_prompt, AfterEval, ReplConfig};
use blazewvr::run_once::RunOnceConfig;

#[test]
fn for_dw_builds_expected_args() {
    let inputs = vec![("payload".to_string(), "/tmp/p.json".to_string())];
    let config = ReplConfig::for_dw("/usr/local/bin/dw", &inputs);
    assert_eq!(config.program, "/usr/local/bin/dw");
    assert_eq!(config.args, vec!["repl", "-s", "-i", "payload=/tmp/p.json"]);
}

#[test]
fn for_dw_with_no_inputs() {
    let config = ReplConfig::for_dw("dw", &[]);
    assert_eq!(config.args, vec!["repl", "-s"]);
}

#[test]
fn for_dw_builds_run_args_with_inputs_and_path() {
    let inputs = vec![("payload".to_string(), "/tmp/p.json".to_string())];
    let config = RunOnceConfig::for_dw("dw", &inputs, Some("dir1:dir2"));
    let args = config.args("/tmp/script.dwl");
    assert_eq!(
        args,
        vec![
            "run",
            "-s",
            "-f",
            "/tmp/script.dwl",
            "-i",
            "payload=/tmp/p.json",
            "--path=dir1:dir2"
        ]
    );
}

#[test]
fn for_dw_with_no_inputs_or_path() {
    let config = RunOnceConfig::for_dw("dw", &[], None);
    let args = config.args("/tmp/script.dwl");
    assert_eq!(args, vec!["run", "-s", "-f", "/tmp/script.dwl"]);
}

// ---- further cases ----

#[test]
fn repl_args_list_every_input_in_order() {
    let inputs = vec![
        ("a".to_string(), "x.json".to_string()),
        ("b".to_string(), "y.json".to_string()),
    ];
    let config = ReplConfig::for_dw("dw", &inputs);
    assert_eq!(config.args, vec!["repl", "-s", "-i", "a=x.json", "-i", "b=y.json"]);
}

#[test]
fn run_once_config_keeps_its_parts() {
    let inputs = vec![("a".to_string(), "x.json".to_string())];
    let config = RunOnceConfig::for_dw("/bin/dw", &inputs, Some("p"));
    assert_eq!(config.program, "/bin/dw");
    assert_eq!(config.inputs, inputs);
    assert_eq!(config.module_search_path, Some("p".to_string()));
}

#[test]
fn strip_prompt_removes_a_trailing_prompt_only() {
    let mut acc = b"ECHO:x\n>>> ".to_vec();
    assert!(strip_prompt(&mut acc));
    assert_eq!(acc, b"ECHO:x\n".to_vec());
    let mut acc = b">>".to_vec();
    assert!(!strip_prompt(&mut acc));
    assert_eq!(acc, b">>".to_vec());
    let mut acc = b">>> x".to_vec();
    assert!(!strip_prompt(&mut acc));
}

#[test]
fn reply_text_decodes_and_trims() {
    assert_eq!(reply_text(b"  ECHO:hi\n"), "ECHO:hi");
    assert_eq!(reply_text(b"\n\t "), "");
    assert_eq!(reply_text(b"a\xffb"), "a\u{fffd}b");
}

#[test]
fn supervisor_retries_once_then_reports_the_first_error() {
    assert_eq!(after_eval(false, true), AfterEval::ReturnResult);
    assert_eq!(after_eval(false, false), AfterEval::RespawnAndRetry);
    assert_eq!(after_eval(true, true), AfterEval::ReturnResult);
    assert_eq!(after_eval(true, false), AfterEval::ReturnFirstError);
}
