use hybrid_mount::conf::handlers::{
    decode_hex_json, detect_rule_file_type, handle_gen_config, handle_hymofs_clear_kstat_rules_config,
    handle_hymofs_set_ignore_protocol_mismatch, handle_lkm_clear_kmi, handle_lkm_set_autoload,
    handle_lkm_set_kmi, handle_save_module_rules,
};
use hybrid_mount::conf::schema::HymoKstatRuleConfig;
use hybrid_mount::domain::{ModuleRules, MountMode};
use hybrid_mount::conf::loader::{load_config, LoadOutcome};
use hybrid_mount::conf::schema::Config;
use hybrid_mount::engine::hymofs::{EntryKind, DT_LNK, DT_REG};
use hybrid_mount::engine::recovery::list_module_dirs;
use hybrid_mount::engine::storage::{SizeProbe, SizeTally, SizeWalk};
use hybrid_mount::engine::system_api::build_storage_report;

#[test]
fn decode_hex_json_decodes_pairs() {
    let bytes = decode_hex_json("7b2261223a317d", "Config").unwrap();
    assert_eq!(bytes, b"{\"a\":1}".to_vec());
    assert_eq!(decode_hex_json("4A4b", "Config").unwrap(), vec![0x4a, 0x4b]);
    assert_eq!(decode_hex_json("+f", "Config").unwrap(), vec![0x0f]);
    assert_eq!(decode_hex_json("", "Config").unwrap(), Vec::<u8>::new());
}

#[test]
fn decode_hex_json_rejects_odd_length() {
    assert_eq!(
        decode_hex_json("abc", "ModuleRules").unwrap_err(),
        "Invalid hex payload length for ModuleRules"
    );
}

#[test]
fn decode_hex_json_rejects_bad_digits() {
    assert_eq!(
        decode_hex_json("zz", "Config").unwrap_err(),
        "Failed to decode hex payload for Config"
    );
    assert_eq!(
        decode_hex_json("-1", "Config").unwrap_err(),
        "Failed to decode hex payload for Config"
    );
    assert_eq!(
        decode_hex_json("é", "Config").unwrap_err(),
        "Failed to decode hex payload for Config"
    );
}

#[test]
fn detect_rule_file_type_accepts_files_and_links() {
    assert_eq!(detect_rule_file_type("/a", EntryKind::File, 0), Ok(DT_REG));
    assert_eq!(detect_rule_file_type("/a", EntryKind::Symlink, 0), Ok(DT_LNK));
}

#[test]
fn detect_rule_file_type_refuses_whiteouts_and_directories() {
    assert_eq!(
        detect_rule_file_type("/m/x", EntryKind::CharDevice, 0).unwrap_err(),
        "source /m/x is a whiteout node; use `hymofs rule hide` instead"
    );
    assert_eq!(
        detect_rule_file_type("/m/d", EntryKind::Dir, 0).unwrap_err(),
        "unsupported source type for rule add: /m/d (use `merge` or `add-dir` for directories)"
    );
    assert!(detect_rule_file_type("/m/c", EntryKind::CharDevice, 5).is_err());
}

#[test]
fn gen_config_refuses_existing_file_without_force() {
    assert_eq!(
        handle_gen_config("/tmp/c.toml", true, false).unwrap_err(),
        "Config already exists at /tmp/c.toml. Use --force to overwrite."
    );
    let c = handle_gen_config("/tmp/c.toml", true, true).unwrap();
    assert_eq!(c.mountsource, "KSU");
    assert!(handle_gen_config("/tmp/c.toml", false, false).is_ok());
}

#[test]
fn ignore_protocol_mismatch_is_saved() {
    let mut c = Config::default();
    let change = handle_hymofs_set_ignore_protocol_mismatch(&mut c, true);
    assert!(c.hymofs.ignore_protocol_mismatch);
    assert_eq!(change.operation, "set_ignore_protocol_mismatch");
}

#[test]
fn storage_report_without_mount_point() {
    let r = build_storage_report("", false, 7, "", Err(String::new()));
    assert_eq!(r.error.as_deref(), Some("Not mounted"));
    assert_eq!(r.mode, "unknown");
    assert_eq!(r.pid, 7);
    assert!(r.usage.is_none());
}

#[test]
fn storage_report_warns_on_zero_size() {
    let r = build_storage_report("/mnt/x", true, 1, "tmpfs", Ok((0, 0, 0)));
    assert_eq!(r.warning.as_deref(), Some("Zero size detected"));
    assert!(r.error.is_none());
    assert_eq!(r.mode, "tmpfs");
    let r = build_storage_report("/mnt/x", true, 1, "ext4", Ok((100, 40, 60)));
    assert!(r.warning.is_none());
    assert_eq!(r.usage, Some((100, 40, 60)));
}

#[test]
fn storage_report_carries_statvfs_error() {
    let r = build_storage_report("/mnt/x", true, 1, "ext4", Err("boom".to_string()));
    assert_eq!(r.error.as_deref(), Some("statvfs failed: boom"));
}

#[test]
fn size_tally_counts_hard_links_once() {
    let mut t = SizeTally::new();
    assert!(t.add_file(1, 10, 8));
    assert!(!t.add_file(1, 10, 8));
    assert!(t.add_file(2, 10, 1));
    assert_eq!(t.total, 8 * 512 + 512);
}

#[test]
fn list_module_dirs_keeps_plain_subdirectories() {
    let entries = vec![
        ("mod_a".to_string(), true),
        ("lost+found".to_string(), true),
        ("file.txt".to_string(), false),
        ("mod_b".to_string(), true),
    ];
    let dirs = list_module_dirs("/data/adb/modules", true, &entries);
    assert_eq!(
        dirs,
        vec![
            ("mod_a".to_string(), "/data/adb/modules/mod_a".to_string()),
            ("mod_b".to_string(), "/data/adb/modules/mod_b".to_string()),
        ]
    );
    assert!(list_module_dirs("/nowhere", false, &entries).is_empty());
}

#[test]
fn load_config_reports_custom_path_failure() {
    let r = load_config(Some("/etc/x.toml"), LoadOutcome::Failed("bad toml".to_string()));
    assert_eq!(r.unwrap_err(), "Failed to load config from custom path: /etc/x.toml: bad toml");
}

#[test]
fn load_config_falls_back_to_defaults_without_custom_path() {
    let r = load_config(None, LoadOutcome::Failed("unreadable".to_string())).unwrap();
    assert_eq!(r.moduledir, "/data/adb/modules");
    let r = load_config(Some("/etc/x.toml"), LoadOutcome::Missing).unwrap();
    assert_eq!(r.mountsource, "KSU");
}

#[test]
fn load_config_migrates_legacy_lkm_dir() {
    let mut c = Config::default();
    c.hymofs.lkm_dir = "/data/adb/modules/hybrid_mount/hymofs_lkm/".to_string();
    let r = load_config(None, LoadOutcome::Parsed(c)).unwrap();
    assert_eq!(r.hymofs.lkm_dir, "/data/adb/modules/hybrid_mount/kasumi_lkm");
}

#[test]
fn lkm_settings_edit_only_their_fields() {
    let mut c = Config::default();
    handle_lkm_set_autoload(&mut c, false);
    assert!(!c.hymofs.lkm_autoload);
    handle_lkm_set_kmi(&mut c, "android14-6.1");
    assert_eq!(c.hymofs.lkm_kmi_override, "android14-6.1");
    handle_lkm_clear_kmi(&mut c);
    assert!(c.hymofs.lkm_kmi_override.is_empty());
    assert!(!c.hymofs.lkm_autoload);
}

#[test]
fn clear_kstat_rules_empties_the_list() {
    let mut c = Config::default();
    c.hymofs.kstat_rules.push(HymoKstatRuleConfig::default());
    let change = handle_hymofs_clear_kstat_rules_config(&mut c);
    assert!(c.hymofs.kstat_rules.is_empty());
    assert_eq!(change.label, "HymoFS kstat rules");
}

#[test]
fn save_module_rules_replaces_or_adds() {
    let mut c = Config::default();
    let magic = ModuleRules { default_mode: MountMode::Magic, paths: vec![] };
    handle_save_module_rules(&mut c, "mod_a", magic);
    assert_eq!(c.rules.len(), 1);
    let ignore = ModuleRules {
        default_mode: MountMode::Overlay,
        paths: vec![("system/bin/x".to_string(), MountMode::Ignore)],
    };
    handle_save_module_rules(&mut c, "mod_a", ignore);
    assert_eq!(c.rules.len(), 1);
    assert_eq!(c.rules[0].0, "mod_a");
    assert_eq!(c.rules[0].1.default_mode, MountMode::Overlay);
    handle_save_module_rules(&mut c, "mod_b", ModuleRules { default_mode: MountMode::Magic, paths: vec![] });
    assert_eq!(c.rules.len(), 2);
    assert_eq!(c.rules[1].0, "mod_b");
}

#[test]
fn size_walk_visits_directories_and_counts_links_once() {
    let sources = vec!["/m/a".to_string(), "/m/gone".to_string()];
    let mut walk = SizeWalk::new(&sources, &vec![true, false]);
    assert_eq!(walk.next_path().map(|s| s.as_str()), Some("/m/a"));
    walk.record(SizeProbe::Dir(vec!["/m/a/x".to_string(), "/m/a/y".to_string(), "/m/a/l".to_string()]))
        .unwrap();
    assert_eq!(walk.next_path().map(|s| s.as_str()), Some("/m/a/l"));
    walk.record(SizeProbe::Skip).unwrap();
    assert_eq!(walk.next_path().map(|s| s.as_str()), Some("/m/a/y"));
    walk.record(SizeProbe::File { dev: 1, ino: 7, blocks: 2 }).unwrap();
    assert_eq!(walk.next_path().map(|s| s.as_str()), Some("/m/a/x"));
    walk.record(SizeProbe::File { dev: 1, ino: 7, blocks: 2 }).unwrap();
    assert!(walk.next_path().is_none());
    assert_eq!(walk.tally.total, 1024);
}

#[test]
fn size_walk_stops_on_lstat_failure() {
    let mut walk = SizeWalk::new(&vec!["/m/a".to_string()], &vec![true]);
    assert_eq!(walk.record(SizeProbe::Failed("denied".to_string())), Err("denied".to_string()));
    assert_eq!(walk.tally.total, 0);
}
