use hybrid_mount::engine::controller::MountController;
use hybrid_mount::conf::cli::{errors_as_json, runs_daemon, ApiCommands, Cli, Commands};
use hybrid_mount::conf::schema::{parse_partition_list, Config, OverlayMode};
use hybrid_mount::domain::{DefaultMode, ModuleRules, MountMode};
use hybrid_mount::engine::coordinators::{BackendCapabilities, HymofsCoordinator, KasumiCoordinator};
use hybrid_mount::engine::inventory::{
    load_module_rules, scan, select_modules, MarkerFiles, Module, ModuleDirEntry,
};
use hybrid_mount::engine::storage::{
    best_effort_live_context, e2fsck_code_ok, setup, setup_with_sources,
};

#[test]
fn partition_lists_are_trimmed_and_filtered() {
    assert_eq!(parse_partition_list(" system, vendor ,,odm "), vec!["system", "vendor", "odm"]);
    assert!(parse_partition_list("").is_empty());
}

#[test]
fn command_line_overrides_replace_fields() {
    let mut c = Config::default();
    c.merge_with_cli(Some("/data/mods".to_string()), None, vec![]);
    assert_eq!(c.moduledir, "/data/mods");
    assert_eq!(c.mountsource, "KSU");
    assert!(c.partitions.is_empty());
    c.merge_with_cli(None, Some("APatch".to_string()), vec!["my_heytap".to_string()]);
    assert_eq!(c.mountsource, "APatch");
    assert_eq!(c.partitions, vec!["my_heytap"]);
}

#[test]
fn cli_without_command_boots() {
    let cli = Cli { config: None, command: None };
    assert!(runs_daemon(&cli));
    let api = Commands::Api { command: ApiCommands::Storage };
    assert!(errors_as_json(&api));
    assert!(!errors_as_json(&Commands::Logs { lines: 10 }));
}

fn entry(id: &str, dir: bool, markers: MarkerFiles) -> ModuleDirEntry {
    ModuleDirEntry { id: id.to_string(), path: format!("/data/adb/modules/{id}"), is_dir: dir, markers }
}

fn clean() -> MarkerFiles {
    MarkerFiles { disable: false, remove: false, mount_error: false, skip_mount: false }
}

#[test]
fn module_rules_come_from_config_or_default_mode() {
    let mut c = Config::default();
    c.default_mode = DefaultMode::Magic;
    c.rules.push((
        "mod_a".to_string(),
        ModuleRules { default_mode: MountMode::Hymofs, paths: vec![("system/bin".to_string(), MountMode::Ignore)] },
    ));
    let a = load_module_rules("mod_a", &c);
    assert_eq!(a.default_mode, MountMode::Hymofs);
    assert_eq!(a.paths.len(), 1);
    let b = load_module_rules("mod_b", &c);
    assert_eq!(b.default_mode, MountMode::Magic);
    assert!(b.paths.is_empty());
}

#[test]
fn scan_keeps_mountable_module_directories_sorted() {
    let c = Config::default();
    let mut disabled = clean();
    disabled.disable = true;
    let entries = vec![
        entry("zeta", true, clean()),
        entry("alpha", true, clean()),
        entry("off", true, disabled),
        entry("file", false, clean()),
        entry("lost+found", true, clean()),
    ];
    let selected = select_modules(&entries, &c);
    let ids: Vec<&str> = selected.iter().map(|m| m.id.as_str()).collect();
    assert_eq!(ids, vec!["zeta", "alpha"]);
    let scanned = scan(&entries, &c);
    let ids: Vec<&str> = scanned.iter().map(|m| m.id.as_str()).collect();
    assert_eq!(ids, vec!["alpha", "zeta"]);
    assert_eq!(scanned[0].source_path, "/data/adb/modules/alpha");
}

fn module(id: &str, mode: MountMode) -> Module {
    Module {
        id: id.to_string(),
        source_path: format!("/data/adb/modules/{id}"),
        rules: ModuleRules { default_mode: mode, paths: vec![] },
    }
}

#[test]
fn backends_are_used_only_when_enabled_and_operational() {
    let mut c = Config::default();
    let caps = BackendCapabilities::detect(&c, "Available".to_string(), true);
    assert!(!caps.can_use_hymofs());
    c.hymofs.enabled = true;
    let caps = BackendCapabilities::detect(&c, "Available".to_string(), true);
    assert!(caps.can_use_hymofs());
    assert_eq!(caps.hymofs_status(), "Available");
    let mods = vec![module("a", MountMode::Overlay), module("b", MountMode::Hymofs)];
    let h = HymofsCoordinator::new(&c);
    assert!(h.backend_requested(&caps, &mods));
    assert_eq!(h.hymofs_modules(&mods), vec![1]);
    let plan = h.prepare_mirror_storage(&caps, &mods).unwrap();
    assert_eq!(plan.target, "/dev/hymo_mirror");
    assert_eq!(plan.sources, vec!["/data/adb/modules/b"]);
    assert!(plan.prefer_ext4);
    assert_eq!(plan.image_path, "/data/adb/hybrid-mount/hymofs.img");
    let k = KasumiCoordinator::new(&c);
    assert!(!k.backend_requested(&caps, &mods));
    assert!(k.prepare_mirror_storage(&caps, &mods).is_none());
    let off = BackendCapabilities::detect(&c, "NotPresent".to_string(), false);
    assert!(h.prepare_mirror_storage(&off, &mods).is_none());
}

#[test]
fn storage_requests_pick_tmpfs_unless_ext4_is_forced() {
    let r = setup("/mnt/hm", "/data/adb/modules", false, "KSU", false);
    assert!(r.tries_tmpfs());
    assert_eq!(r.img_path, "/data/adb/hybrid-mount/modules.img");
    assert_eq!(r.image_glob(), "/data/adb/hybrid-mount/modules.img*");
    assert_eq!(r.finish(true).mode(), "tmpfs");
    assert_eq!(r.finish(false).mode(), "ext4");
    assert_eq!(r.finish(true).mount_point(), "/mnt/hm");
    let r = setup_with_sources("/mnt/k", vec!["/a".to_string()], true, "KSU", true, "/x.img");
    assert!(!r.tries_tmpfs());
    assert_eq!(r.finish(true).mode(), "ext4");
    let _ = OverlayMode::Tmpfs;
}

#[test]
fn e2fsck_codes_up_to_three_are_usable() {
    assert!(e2fsck_code_ok(0));
    assert!(e2fsck_code_ok(3));
    assert!(!e2fsck_code_ok(4));
    assert!(!e2fsck_code_ok(-1));
}

#[test]
fn live_context_is_the_first_found() {
    assert_eq!(
        best_effort_live_context(&vec![None, Some("u:object_r:vendor_file:s0".to_string())]),
        "u:object_r:vendor_file:s0"
    );
    assert_eq!(best_effort_live_context(&vec![None]), "u:object_r:system_file:s0");
}

#[test]
fn controller_sets_up_storage_and_scans_modules() {
    let mut c = Config::default();
    c.overlay_mode = OverlayMode::Tmpfs;
    let caps = BackendCapabilities::detect(&c, "NotPresent".to_string(), false);
    let ctl = MountController::new(c.clone(), "/mnt/work", caps).init_storage("/mnt/hybrid", true);
    assert_eq!(ctl.state.handle.mount_point(), "/mnt/hybrid");
    assert_eq!(ctl.state.handle.mode(), "tmpfs");
    let entries = vec![entry("zeta", true, clean()), entry("alpha", true, clean()), entry("file", false, clean())];
    let ctl = ctl.scan_and_sync(&entries);
    let ids: Vec<&str> = ctl.state.modules.iter().map(|m| m.id.as_str()).collect();
    assert_eq!(ids, vec!["alpha", "zeta"]);

    c.overlay_mode = OverlayMode::Ext4;
    let caps = BackendCapabilities::detect(&c, "NotPresent".to_string(), false);
    let ctl = MountController::new(c, "/mnt/work", caps).init_storage("/mnt/hybrid", true);
    assert_eq!(ctl.state.handle.mode(), "ext4");
}
