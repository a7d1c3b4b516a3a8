use blazewvr::status::{format_hms_utc, render_header};

#[test]
fn format_hms_utc_at_epoch() {
    assert_eq!(format_hms_utc(0), "00:00:00 UTC");
}

#[test]
fn format_hms_utc_mid_day() {
    // 1h 2m 3s into the epoch day
    let t = 3600 + 120 + 3;
    assert_eq!(format_hms_utc(t), "01:02:03 UTC");
}

#[test]
fn format_hms_utc_wraps_across_days() {
    // exactly 2 days + 1 second
    let t = 2 * 86_400 + 1;
    assert_eq!(format_hms_utc(t), "00:00:01 UTC");
}

#[test]
fn header_includes_script_path() {
    let out = render_header("foo.dwl", &[], 5, 0);
    assert!(out.contains("foo.dwl"));
}

#[test]
fn header_reports_no_inputs() {
    let out = render_header("foo.dwl", &[], 5, 0);
    assert!(out.contains("none"));
}

#[test]
fn header_lists_bound_inputs() {
    let inputs = vec![("payload".to_string(), "p.json".to_string())];
    let out = render_header("foo.dwl", &inputs, 5, 0);
    assert!(out.contains("payload=p.json"));
}

#[test]
fn header_includes_duration_in_millis() {
    let out = render_header("foo.dwl", &[], 42, 0);
    assert!(out.contains("42ms"));
}

#[test]
fn header_includes_timestamp() {
    let out = render_header("foo.dwl", &[], 5, 0);
    assert!(out.contains("00:00:00 UTC"));
}

// ---- further cases ----

#[test]
fn format_hms_utc_last_second_of_day() {
    assert_eq!(format_hms_utc(86_399), "23:59:59 UTC");
    assert_eq!(format_hms_utc(u64::MAX), "07:00:15 UTC");
}

#[test]
fn format_hms_utc_is_the_same_a_day_later() {
    for t in [0u64, 59, 3_661, 45_296, 86_399] {
        assert_eq!(format_hms_utc(t), format_hms_utc(t + 86_400));
    }
}

#[test]
fn header_exact_text_without_color() {
    colored::control::set_override(false);
    let inputs = vec![
        ("payload".to_string(), "p.json".to_string()),
        ("vars".to_string(), "v.json".to_string()),
    ];
    let out = render_header("s.dwl", &inputs, 1234, 3_723);
    assert_eq!(
        out,
        "script: s.dwl  inputs: payload=p.json, vars=v.json  took: 1234ms  at: 01:02:03 UTC"
    );
}

#[test]
fn header_prints_large_durations_in_full() {
    colored::control::set_override(false);
    let out = render_header("s", &[], u128::MAX, 0);
    assert!(out.contains("took: 340282366920938463463374607431768211455ms"));
}
