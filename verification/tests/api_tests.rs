use hybrid_mount::engine::api::{extract_active_module_ids, parse_hymofs_rule_listing};

#[test]
fn parse_hymofs_rules_skips_header_lines_and_parses_known_entries() {
    let raw = "\
HymoFS Protocol: 14\n\
HymoFS Enabled: 1\n\
add /system/bin/sh /dev/hymo_mirror/demo/system/bin/sh 10\n\
hide /data/adb/magisk\n\
merge /system/etc /dev/hymo_mirror/demo/system/etc\n\
mount_hide enabled\n";

    let parsed = parse_hymofs_rule_listing(raw);

    assert_eq!(parsed.len(), 4);
    assert_eq!(parsed[0].rule_type, "ADD");
    assert_eq!(parsed[0].target.as_deref(), Some("/system/bin/sh"));
    assert_eq!(
        parsed[0].source.as_deref(),
        Some("/dev/hymo_mirror/demo/system/bin/sh")
    );
    assert_eq!(parsed[0].file_type, Some(10));
    assert_eq!(parsed[1].rule_type, "HIDE");
    assert_eq!(parsed[1].path.as_deref(), Some("/data/adb/magisk"));
    assert_eq!(parsed[2].rule_type, "MERGE");
    assert_eq!(parsed[3].rule_type, "MOUNT_HIDE");
    assert_eq!(parsed[3].args.as_deref(), Some("enabled"));
}

#[test]
fn extract_active_modules_prefers_module_and_mirror_sources() {
    let raw = "\
add /system/bin/sh /data/adb/modules/mod_a/system/bin/sh 10\n\
merge /system/etc /dev/hymo_mirror/mod_b/system/etc\n";
    let parsed = parse_hymofs_rule_listing(raw);
    let modules = extract_active_module_ids(&parsed, "/dev/hymo_mirror");

    assert_eq!(modules, vec!["mod_a".to_string(), "mod_b".to_string()]);
}
