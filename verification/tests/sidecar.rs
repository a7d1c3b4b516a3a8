use blazewvr::config::ProjectConfig;
use blazewvr::sidecar::{sidecar_dir, sidecar_inputs};

fn names(v: &[&str]) -> Vec<String> {
    v.iter().map(|s| s.to_string()).collect()
}

fn pair(a: &str, b: &str) -> (String, String) {
    (a.to_string(), b.to_string())
}

#[test]
fn finds_a_single_sidecar_input() {
    let found = sidecar_inputs("foo", names(&["foo.dwl", "foo.payload.json"]));
    assert_eq!(found, vec![pair("payload", "foo.payload.json")]);
}

#[test]
fn finds_multiple_sidecars_sorted_by_name() {
    let found = sidecar_inputs("foo", names(&["foo.dwl", "foo.zeta.json", "foo.alpha.xml"]));
    assert_eq!(
        found,
        vec![pair("alpha", "foo.alpha.xml"), pair("zeta", "foo.zeta.json")]
    );
}

#[test]
fn ignores_unrelated_files_in_the_same_directory() {
    let found = sidecar_inputs("foo", names(&["foo.dwl", "bar.payload.json", "README.md"]));
    assert_eq!(found, vec![]);
}

#[test]
fn ignores_the_script_file_itself() {
    assert_eq!(sidecar_inputs("foo", names(&["foo.dwl"])), vec![]);
}

#[test]
fn ignores_sidecar_candidate_with_no_extension() {
    assert_eq!(sidecar_inputs("foo", names(&["foo.dwl", "foo.payload"])), vec![]);
}

#[test]
fn sidecar_needs_a_nonempty_name_and_allows_empty_extension() {
    assert_eq!(sidecar_inputs("foo", names(&["foo..json"])), vec![]);
    assert_eq!(
        sidecar_inputs("foo", names(&["foo.x."])),
        vec![pair("x", "foo.x.")]
    );
    assert_eq!(sidecar_inputs("foo", names(&["foobar.x.json"])), vec![]);
}

#[test]
fn sidecar_names_sort_by_code_point() {
    let found = sidecar_inputs("s", names(&["s.b.json", "s.B.json", "s.a.json"]));
    let order: Vec<String> = found.into_iter().map(|p| p.0).collect();
    assert_eq!(order, vec!["B", "a", "b"]);
}

#[test]
fn project_config_orders_inputs_by_name() {
    let c = ProjectConfig::from_parts(
        Some("dir1:dir2".to_string()),
        vec![pair("payload", "data/payload.json"), pair("headers", "data/headers.json")],
    );
    assert_eq!(c.module_search_path, Some("dir1:dir2".to_string()));
    assert_eq!(
        c.inputs,
        vec![pair("headers", "data/headers.json"), pair("payload", "data/payload.json")]
    );
}

#[test]
fn sidecar_dir_is_the_scripts_directory_or_the_current_one() {
    assert_eq!(sidecar_dir(b"script.dwl"), b".".to_vec());
    assert_eq!(sidecar_dir(b"dir/script.dwl"), b"dir".to_vec());
    assert_eq!(sidecar_dir(b"a/b//script.dwl"), b"a/b".to_vec());
    assert_eq!(sidecar_dir(b"/script.dwl"), b"/".to_vec());
    assert_eq!(sidecar_dir(b"./script.dwl"), b".".to_vec());
    assert_eq!(sidecar_dir(b"dir/sub/"), b"dir".to_vec());
}
