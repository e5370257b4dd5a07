use hybrid_mount::engine::inventory::{
    is_reserved_module_dir, mount_block_markers, normalize_module_prop, parse_module_prop,
    has_mount_block_marker, MarkerFiles, ModuleProp,
};
use hybrid_mount::engine::storage::live_context_candidates;

#[test]
fn normalize_module_prop_fills_empty_fields() {
    let normalized = normalize_module_prop("sample.id", ModuleProp::default());
    assert_eq!(normalized.name, "sample.id");
    assert_eq!(normalized.version, "unknown");
    assert_eq!(normalized.author, "unknown");
    assert_eq!(normalized.description, "No description");
}

#[test]
fn module_prop_parses_expected_fields() {
    let prop = parse_module_prop(
        "name=Demo\nversion=1.0\nauthor=Hybrid Mount\ndescription=sample\nignored=1\n",
    );
    assert_eq!(prop.name, "Demo");
    assert_eq!(prop.version, "1.0");
    assert_eq!(prop.author, "Hybrid Mount");
    assert_eq!(prop.description, "sample");
}

#[test]
fn module_prop_skips_malformed_lines_and_keeps_last_value() {
    let prop = parse_module_prop("  name=First  \r\nbad line\n=x\nname=Second\nauthor =me\n");
    assert_eq!(prop.name, "Second");
    assert_eq!(prop.author, "");
    let normalized = normalize_module_prop("id", prop);
    assert_eq!(normalized.author, "unknown");
    assert_eq!(normalized.version, "unknown");
}

#[test]
fn live_context_candidates_walk_exact_path_then_parents() {
    let candidates = live_context_candidates("product/overlay/Foo.apk");

    assert_eq!(
        candidates,
        vec![
            "/product/overlay/Foo.apk".to_string(),
            "/product/overlay".to_string(),
            "/product".to_string(),
            "/".to_string(),
        ]
    );
}

#[test]
fn live_context_candidates_of_empty_path_is_root() {
    assert_eq!(live_context_candidates(""), vec!["/".to_string()]);
}

#[test]
fn mount_block_markers_include_mount_error_and_legacy_skip() {
    let markers = mount_block_markers(MarkerFiles {
        disable: false,
        remove: false,
        mount_error: true,
        skip_mount: true,
    });
    assert!(markers.contains(&"mount_error".to_string()));
    assert!(markers.contains(&"skip_mount".to_string()));
    assert_eq!(markers, vec!["mount_error".to_string(), "skip_mount".to_string()]);
    assert!(has_mount_block_marker(MarkerFiles {
        disable: true,
        remove: false,
        mount_error: false,
        skip_mount: false,
    }));
    assert!(!has_mount_block_marker(MarkerFiles {
        disable: false,
        remove: false,
        mount_error: false,
        skip_mount: false,
    }));
}

#[test]
fn reserved_module_dirs_are_recognised() {
    assert!(is_reserved_module_dir("lost+found"));
    assert!(is_reserved_module_dir(".git"));
    assert!(is_reserved_module_dir("hybrid-mount"));
    assert!(!is_reserved_module_dir("hybrid_mount"));
    assert!(!is_reserved_module_dir("demo"));
}
