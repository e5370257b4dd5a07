use hybrid_mount::conf::schema::{Config, HymoFsConfig};
use hybrid_mount::defs;
use hybrid_mount::domain::{DefaultMode, ModuleRules, MountMode};

#[test]
fn config_default_disables_overlay_fallback() {
    let cfg = Config::default();
    assert!(!cfg.enable_overlay_fallback);
}

#[test]
fn schema_module_rules_prefers_longest_prefix_match() {
    let rules = ModuleRules {
        default_mode: MountMode::Overlay,
        paths: vec![
            ("system".to_string(), MountMode::Magic),
            ("system/bin".to_string(), MountMode::Hymofs),
        ],
    };

    assert_eq!(rules.get_mode("system/bin"), MountMode::Hymofs);
    assert_eq!(rules.get_mode("system/bin/sh"), MountMode::Hymofs);
    assert_eq!(rules.get_mode("system/lib"), MountMode::Magic);
}

#[test]
fn mod_module_rules_prefers_longest_prefix_match() {
    let rules = ModuleRules {
        default_mode: MountMode::Overlay,
        paths: vec![
            ("system".to_string(), MountMode::Magic),
            ("system/bin".to_string(), MountMode::Hymofs),
        ],
    };

    assert_eq!(rules.get_mode("system/bin"), MountMode::Hymofs);
    assert_eq!(rules.get_mode("system/bin/sh"), MountMode::Hymofs);
    assert_eq!(rules.get_mode("system/lib"), MountMode::Magic);
}

#[test]
fn hymofs_config_defaults_to_dev_mirror() {
    let cfg = HymoFsConfig::default();
    assert_eq!(cfg.mirror_path, defs::HYMOFS_MIRROR_DIR);
    assert!(cfg.lkm_autoload);
    assert_eq!(cfg.lkm_dir, defs::HYMOFS_LKM_DIR);
    assert!(cfg.lkm_kmi_override.is_empty());
    assert!(!cfg.enabled);
    assert!(cfg.enable_stealth);
    assert!(!cfg.enable_hidexattr);
    assert!(!cfg.mount_hide.enabled);
    assert!(cfg.mount_hide.path_pattern.is_empty());
    assert!(!cfg.statfs_spoof.enabled);
    assert!(cfg.statfs_spoof.path.is_empty());
    assert_eq!(cfg.statfs_spoof.spoof_f_type, 0);
    assert!(cfg.hide_uids.is_empty());
    assert!(cfg.uname.sysname.is_empty());
    assert!(cfg.uname_release.is_empty());
    assert!(cfg.uname_version.is_empty());
    assert!(cfg.cmdline_value.is_empty());
    assert!(cfg.kstat_rules.is_empty());
    assert!(cfg.maps_rules.is_empty());
}

#[test]
fn default_mode_maps_to_mount_mode() {
    assert_eq!(DefaultMode::Overlay.as_mount_mode(), MountMode::Overlay);
    assert_eq!(DefaultMode::Magic.as_mount_mode(), MountMode::Magic);
    assert_eq!(DefaultMode::Hymofs.as_mount_mode(), MountMode::Hymofs);
}

#[test]
fn module_rules_default_applies_without_match() {
    let rules = ModuleRules {
        default_mode: MountMode::Ignore,
        paths: vec![("system/bin".to_string(), MountMode::Magic)],
    };
    assert_eq!(rules.get_mode("system"), MountMode::Ignore);
    assert_eq!(rules.get_mode("system/binary"), MountMode::Ignore);
    assert_eq!(rules.get_mode("vendor/bin"), MountMode::Ignore);
}
