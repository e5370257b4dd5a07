use hybrid_mount::engine::hymofs_path::{hymofs_probe_paths, resolve_path_for_hymofs_with_root};

fn probes(root: &str, path: &str) -> Vec<String> {
    hymofs_probe_paths(root, path)
}

#[test]
fn probes_walk_up_to_the_root() {
    assert_eq!(probes("/", "/system/bin/sh"), vec!["/system/bin", "/system", "/"]);
    assert_eq!(
        probes("/tmp/sr", "/system/bin/sh"),
        vec!["/tmp/sr/system/bin", "/tmp/sr/system", "/tmp/sr"]
    );
    assert!(probes("/", "/").is_empty());
    assert!(probes("/", "/system/..").is_empty());
}

#[test]
fn existing_parent_keeps_the_path() {
    let r = resolve_path_for_hymofs_with_root("/", "/system/bin/sh", &vec![true, true, true]);
    assert_eq!(r, "/system/bin/sh");
}

#[test]
fn missing_parents_are_rebuilt_from_an_existing_ancestor() {
    let r = resolve_path_for_hymofs_with_root(
        "/",
        "/system/new/dir/f",
        &vec![false, false, true, true],
    );
    assert_eq!(r, "/system/new/dir/f");
}

#[test]
fn result_is_relative_to_the_system_root() {
    let r = resolve_path_for_hymofs_with_root("/tmp/sr", "/system/bin/sh", &vec![true, true, true]);
    assert_eq!(r, "/system/bin/sh");
}

#[test]
fn missing_system_root_repeats_the_walked_names() {
    let r = resolve_path_for_hymofs_with_root("/tmp/sr", "/system/bin/sh", &vec![false, false, false]);
    assert_eq!(r, "/system/bin/system/bin/sh");
}

#[test]
fn relative_paths_are_placed_under_slash() {
    let r = resolve_path_for_hymofs_with_root("/", "system//bin/./sh", &vec![true, true, true]);
    assert_eq!(r, "/system/bin/sh");
}

#[test]
fn unanchored_paths_come_back_unchanged() {
    assert_eq!(resolve_path_for_hymofs_with_root("/", "/", &vec![]), "/");
    assert_eq!(resolve_path_for_hymofs_with_root("/", "/system/..", &vec![]), "/system/..");
}

#[test]
fn parent_names_are_not_repeated() {
    // `/a/../b/c` under `/`: parent `/a/../b` is missing, `/a/..` is missing, `/a` exists.
    let r = resolve_path_for_hymofs_with_root("/", "/a/../b/c", &vec![false, false, true, true]);
    assert_eq!(r, "/a/b/c");
}
