use blazewvr::colorize::strip_ansi;
use blazewvr::watch::{eval_report, parse_input, poll, watched_paths, ModTime, WatchTarget};

#[test]
fn parse_input_splits_name_and_file() {
    assert_eq!(
        parse_input("payload=data.json"),
        Ok(("payload".to_string(), "data.json".to_string()))
    );
}

#[test]
fn parse_input_rejects_missing_equals() {
    assert!(parse_input("payload").is_err());
}

#[test]
fn parse_input_rejects_empty_name() {
    assert!(parse_input("=data.json").is_err());
}

#[test]
fn parse_input_rejects_empty_file() {
    assert!(parse_input("payload=").is_err());
}

#[test]
fn watched_paths_includes_script_and_inputs() {
    let target = WatchTarget {
        script: "s.dwl".to_string(),
        inputs: vec![("payload".to_string(), "p.json".to_string())],
    };
    assert_eq!(
        watched_paths(&target),
        vec!["s.dwl".to_string(), "p.json".to_string()]
    );
}

// ---- further cases ----

#[test]
fn parse_input_splits_at_the_first_equals() {
    assert_eq!(
        parse_input("a=b=c"),
        Ok(("a".to_string(), "b=c".to_string()))
    );
}

#[test]
fn parse_input_error_message() {
    assert_eq!(
        parse_input("payload"),
        Err("invalid input 'payload', expected name=file".to_string())
    );
}

#[test]
fn eval_report_shows_result_after_header() {
    let target = WatchTarget { script: "s.dwl".to_string(), inputs: vec![] };
    let out = strip_ansi(&eval_report(&target, 3, 0, Ok("{\"a\": 1}".to_string())));
    assert!(out.ends_with("\n{\"a\": 1}"));
    assert!(out.contains("s.dwl"));
}

#[test]
fn eval_report_reports_error_for_missing_script() {
    let target = WatchTarget { script: "missing.dwl".to_string(), inputs: vec![] };
    let out = strip_ansi(&eval_report(
        &target,
        0,
        0,
        Err("reading missing.dwl: No such file or directory (os error 2)".to_string()),
    ));
    assert!(out.contains("error: reading missing.dwl"));
}

#[test]
fn poll_reports_a_change_and_remembers_the_new_times() {
    let t1 = ModTime { after_epoch: true, secs: 10, nanos: 5 };
    let t2 = ModTime { after_epoch: true, secs: 10, nanos: 6 };
    let mut last = vec![Some(t1), None];
    assert!(!poll(&mut last, vec![Some(t1), None]));
    assert_eq!(last, vec![Some(t1), None]);
    assert!(poll(&mut last, vec![Some(t2), None]));
    assert_eq!(last, vec![Some(t2), None]);
    assert!(poll(&mut last, vec![Some(t2), Some(t1)]));
    assert!(poll(&mut last, vec![Some(t2)]));
    assert_eq!(last, vec![Some(t2)]);
    let before = ModTime { after_epoch: false, secs: 10, nanos: 6 };
    assert!(poll(&mut last, vec![Some(before)]));
}
