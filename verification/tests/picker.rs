use blazewvr::picker::{
    find_dwl_scripts, path_key, pick_script, pick_script_begin, picker_input, selection_from_output,
    unavailable_message, walk_step, FoundEntry, PickError, PickScriptStep, PickerConfig, WalkStep,
};

fn found(id: usize, path: &str, is_dir: bool) -> FoundEntry {
    let name = path.rsplit('/').next().unwrap().to_string();
    FoundEntry { id, key: path.to_string(), name, is_dir, is_file: !is_dir }
}

#[test]
fn walk_step_skips_hidden_and_target_and_collects_dwl_files() {
    assert_eq!(walk_step(".hidden", true, false), WalkStep::Skip);
    assert_eq!(walk_step(".x.dwl", false, true), WalkStep::Skip);
    assert_eq!(walk_step("target", true, false), WalkStep::Skip);
    assert_eq!(walk_step("sub", true, false), WalkStep::Descend);
    assert_eq!(walk_step("target", false, false), WalkStep::Skip);
    assert_eq!(walk_step("a.dwl", false, true), WalkStep::Collect);
    assert_eq!(walk_step("a.dwl", false, false), WalkStep::Skip);
    assert_eq!(walk_step("b.txt", false, true), WalkStep::Skip);
    assert_eq!(walk_step("dwl", false, true), WalkStep::Skip);
    assert_eq!(walk_step("a.dwl.bak", false, true), WalkStep::Skip);
}

#[test]
fn find_dwl_scripts_collects_and_sorts_by_path_components() {
    let entries = vec![
        found(0, "b.dwl", false),
        found(1, "a.b.dwl", false),
        found(2, "a", true),
        found(3, "a/z.dwl", false),
        found(4, "notes.txt", false),
        found(5, "a.dwl", false),
    ];
    let paths: Vec<String> = find_dwl_scripts(entries).into_iter().map(|e| e.key).collect();
    assert_eq!(paths, vec!["a/z.dwl", "a.b.dwl", "a.dwl", "b.dwl"]);
}

#[test]
fn find_dwl_scripts_recurses_and_skips_target_and_hidden_dirs() {
    // The entries a walk from the root meets: it descends into `sub` only.
    let entries = vec![
        found(0, "a.dwl", false),
        found(1, "b.txt", false),
        found(2, "sub", true),
        found(3, "sub/c.dwl", false),
        found(4, "target", true),
        found(5, ".hidden", true),
    ];
    let ids: Vec<usize> = find_dwl_scripts(entries).into_iter().map(|e| e.id).collect();
    assert_eq!(ids, vec![0, 3]);
}

#[test]
fn pick_script_matches_selection_back_to_path() {
    let scripts = vec!["a.dwl".to_string(), "b.dwl".to_string(), "b.dwl".to_string()];
    assert_eq!(pick_script(&scripts, Some("b.dwl".to_string())), Some(1));
    assert_eq!(pick_script(&scripts, Some("c.dwl".to_string())), None);
    assert_eq!(pick_script(&scripts, None), None);
}

#[test]
fn picker_input_is_one_candidate_per_line() {
    let c = vec!["a.dwl".to_string(), "b.dwl".to_string()];
    assert_eq!(picker_input(&c), Some("a.dwl\nb.dwl".to_string()));
    assert_eq!(picker_input(&["only.dwl".to_string()]), Some("only.dwl".to_string()));
}

#[test]
fn pick_returns_none_for_empty_candidates() {
    // With no candidates there is no picker input: the picker is not run
    // and nothing is selected.
    assert_eq!(picker_input(&[]), None);
}

#[test]
fn pick_script_errs_when_fzf_unavailable() {
    let program = "/nonexistent/blazewvr/nope";
    assert_eq!(
        pick_script_begin(program, false),
        PickScriptStep::Fail(PickError::NotFound(
            "/nonexistent/blazewvr/nope not found on PATH; pass a script path explicitly"
                .to_string()
        ))
    );
}

#[test]
fn pick_script_scans_when_the_picker_is_available() {
    assert_eq!(pick_script_begin("fzf", true), PickScriptStep::Scan);
}

#[test]
fn find_dwl_scripts_orders_by_raw_bytes() {
    // Keys hold one character per byte, so a name with byte 0xff sorts
    // after one with byte 0x7a, as the raw paths do.
    let entries = vec![
        FoundEntry { id: 0, key: "\u{ff}.dwl".to_string(), name: "\u{fffd}.dwl".to_string(), is_dir: false, is_file: true },
        FoundEntry { id: 1, key: "z.dwl".to_string(), name: "z.dwl".to_string(), is_dir: false, is_file: true },
    ];
    let ids: Vec<usize> = find_dwl_scripts(entries).into_iter().map(|e| e.id).collect();
    assert_eq!(ids, vec![1, 0]);
}

#[test]
fn selection_from_output_trims_and_rejects_empty() {
    assert_eq!(selection_from_output(b"a.dwl\n"), Some("a.dwl".to_string()));
    assert_eq!(selection_from_output(b" \n"), None);
    assert_eq!(selection_from_output(b""), None);
}

#[test]
fn default_picker_is_fzf() {
    assert_eq!(PickerConfig::default().program, "fzf");
    assert!(PickerConfig::default().extra_args.is_empty());
}

#[test]
fn unavailable_message_names_the_program() {
    assert_eq!(
        unavailable_message("fzf"),
        "fzf not found on PATH; pass a script path explicitly"
    );
}

#[test]
fn path_key_joins_raw_components_with_slashes() {
    assert_eq!(path_key(&[]), "");
    assert_eq!(path_key(&[b"a.dwl".to_vec()]), "a.dwl");
    assert_eq!(path_key(&[b"sub".to_vec(), b"c.dwl".to_vec()]), "sub/c.dwl");
    assert_eq!(path_key(&[b"bad_\xff.dwl".to_vec()]), "bad_\u{ff}.dwl");
}
