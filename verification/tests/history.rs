use blazewvr::history::{append, format_entry, history_candidates, pick_history, HistoryEntry};
use blazewvr::picker::PickerConfig;
use std::time::{SystemTime, UNIX_EPOCH};

fn entry(script: &str, ts: u64) -> HistoryEntry {
    HistoryEntry {
        script: script.to_string(),
        inputs: Vec::new(),
        module_search_path: None,
        timestamp: ts,
    }
}

/// A stand-in picker: given `--select=S` among its arguments, the first
/// candidate containing `S`; otherwise the first candidate.
fn fake_pick(config: &PickerConfig, candidates: &[String]) -> Option<String> {
    let select = config.extra_args.iter().find_map(|a| a.strip_prefix("--select="));
    match select {
        Some(s) => candidates.iter().find(|c| c.contains(s)).cloned(),
        None => candidates.first().cloned(),
    }
}

fn fake_config(extra_args: Vec<String>) -> PickerConfig {
    PickerConfig { program: "fake-fzf".to_string(), extra_args }
}

fn record(entries: &mut Vec<HistoryEntry>, e: HistoryEntry, max: usize) {
    append(entries, e, max);
}

#[test]
fn now_stamps_a_recent_unix_timestamp() {
    let before = SystemTime::now()
        .duration_since(UNIX_EPOCH)
        .unwrap()
        .as_secs();
    let e = HistoryEntry::now("s.dwl".to_string(), Vec::new(), None);
    let after = SystemTime::now()
        .duration_since(UNIX_EPOCH)
        .unwrap()
        .as_secs();
    assert!((before..=after).contains(&e.timestamp));
    assert_eq!(e.script, "s.dwl".to_string());
}

#[test]
fn append_and_load_round_trips() {
    let mut entries = Vec::new();
    record(&mut entries, entry("a.dwl", 1), 10);
    record(&mut entries, entry("b.dwl", 2), 10);
    assert_eq!(entries, vec![entry("a.dwl", 1), entry("b.dwl", 2)]);
}

#[test]
fn append_preserves_inputs_and_module_path() {
    let mut entries = Vec::new();
    let e = HistoryEntry {
        script: "s.dwl".to_string(),
        inputs: vec![("payload".to_string(), "p.json".to_string())],
        module_search_path: Some("dir1:dir2".to_string()),
        timestamp: 5,
    };
    record(&mut entries, e.clone(), 10);
    assert_eq!(entries, vec![e]);
}

#[test]
fn append_drops_oldest_entries_beyond_max() {
    let mut entries = Vec::new();
    for i in 0..5 {
        record(&mut entries, entry(&format!("{i}.dwl"), i), 3);
    }
    let scripts: Vec<String> = entries.iter().map(|e| e.script.clone()).collect();
    assert_eq!(scripts, vec!["2.dwl", "3.dwl", "4.dwl"]);
}

#[test]
fn pick_history_returns_none_for_empty_history() {
    let entries: Vec<HistoryEntry> = Vec::new();
    let picked = fake_pick(&fake_config(Vec::new()), &history_candidates(&entries));
    assert_eq!(pick_history(entries, picked), None);
}

#[test]
fn pick_history_defaults_to_most_recent_first() {
    let mut entries = Vec::new();
    record(&mut entries, entry("old.dwl", 1), 10);
    record(&mut entries, entry("new.dwl", 2), 10);
    let picked = fake_pick(&fake_config(Vec::new()), &history_candidates(&entries));
    let e = pick_history(entries, picked).unwrap();
    assert_eq!(e.script, "new.dwl");
}

#[test]
fn pick_history_formats_inputs_in_the_candidate_line() {
    let mut entries = Vec::new();
    let with_inputs = HistoryEntry {
        script: "s.dwl".to_string(),
        inputs: vec![("payload".to_string(), "p.json".to_string())],
        module_search_path: None,
        timestamp: 1,
    };
    record(&mut entries, with_inputs.clone(), 10);
    let picked = fake_pick(&fake_config(Vec::new()), &history_candidates(&entries));
    assert_eq!(pick_history(entries, picked), Some(with_inputs));
}

#[test]
fn pick_history_returns_selected_entry() {
    let mut entries = Vec::new();
    record(&mut entries, entry("old.dwl", 1), 10);
    record(&mut entries, entry("new.dwl", 2), 10);
    let picked = fake_pick(
        &fake_config(vec!["--select=old.dwl".to_string()]),
        &history_candidates(&entries),
    );
    let e = pick_history(entries, picked).unwrap();
    assert_eq!(e.script, "old.dwl");
}

// ---- further cases ----

#[test]
fn format_entry_lists_script_inputs_and_timestamp() {
    assert_eq!(format_entry(&entry("s.dwl", 7)), "s.dwl | no inputs | 7");
    let e = HistoryEntry {
        script: "s.dwl".to_string(),
        inputs: vec![
            ("payload".to_string(), "p.json".to_string()),
            ("vars".to_string(), "v.json".to_string()),
        ],
        module_search_path: None,
        timestamp: 1_700_000_000,
    };
    assert_eq!(
        format_entry(&e),
        "s.dwl | payload=p.json,vars=v.json | 1700000000"
    );
}

#[test]
fn candidates_are_most_recent_first() {
    let entries = vec![entry("a.dwl", 1), entry("b.dwl", 2), entry("c.dwl", 3)];
    assert_eq!(
        history_candidates(&entries),
        vec!["c.dwl | no inputs | 3", "b.dwl | no inputs | 2", "a.dwl | no inputs | 1"]
    );
}

#[test]
fn pick_history_prefers_the_most_recent_of_equal_lines() {
    let mut newer = entry("same.dwl", 4);
    newer.module_search_path = Some("m".to_string());
    let entries = vec![entry("same.dwl", 4), newer.clone()];
    let picked = pick_history(entries, Some("same.dwl | no inputs | 4".to_string()));
    assert_eq!(picked, Some(newer));
}

#[test]
fn pick_history_of_unknown_selection_is_none() {
    let entries = vec![entry("a.dwl", 1)];
    assert_eq!(pick_history(entries, Some("zzz".to_string())), None);
}

#[test]
fn append_with_zero_max_keeps_nothing() {
    let mut entries = vec![entry("a.dwl", 1)];
    append(&mut entries, entry("b.dwl", 2), 0);
    assert!(entries.is_empty());
}

#[test]
fn stamped_takes_the_clock_reading_or_zero() {
    let e = HistoryEntry::stamped("s.dwl".to_string(), Vec::new(), None, Some(1_700_000_000));
    assert_eq!(e.timestamp, 1_700_000_000);
    let e = HistoryEntry::stamped("s.dwl".to_string(), Vec::new(), Some("lib".to_string()), None);
    assert_eq!(e.timestamp, 0);
    assert_eq!(e.module_search_path, Some("lib".to_string()));
}
