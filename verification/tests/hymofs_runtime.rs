use hybrid_mount::conf::schema::{Config, HymoKstatRuleConfig, HymoMapsRuleConfig};
use hybrid_mount::engine::hymofs::{
    auxiliary_features_requested, hymofs_runtime_requested, mount_mapping_requested,
};
use hybrid_mount::engine::plan::MountPlan;

#[test]
fn hymofs_runtime_requires_mapping_or_explicit_feature() {
    let mut config = Config::default();
    config.hymofs.enable_kernel_debug = false;
    config.hymofs.enable_stealth = false;
    config.hymofs.enable_hidexattr = false;
    config.hymofs.enable_mount_hide = false;
    config.hymofs.enable_maps_spoof = false;
    config.hymofs.enable_statfs_spoof = false;
    let plan = MountPlan::default();

    assert!(!mount_mapping_requested(&plan));
    assert!(!auxiliary_features_requested(&config, 0));
    assert!(!hymofs_runtime_requested(&plan, &config, 0));
}

#[test]
fn hymofs_runtime_turns_on_for_selected_modules() {
    let mut config = Config::default();
    config.hymofs.enabled = true;
    config.hymofs.enable_mount_hide = false;
    config.hymofs.enable_maps_spoof = false;
    config.hymofs.enable_statfs_spoof = false;

    let plan = MountPlan {
        hymofs_module_ids: vec!["demo".to_string()],
        ..MountPlan::default()
    };

    assert!(mount_mapping_requested(&plan));
    assert!(hymofs_runtime_requested(&plan, &config, 0));
}

#[test]
fn hymofs_runtime_turns_on_for_auxiliary_features() {
    let mut config = Config::default();
    config.hymofs.enabled = true;
    config.hymofs.enable_mount_hide = true;

    assert!(auxiliary_features_requested(&config, 0));
    assert!(hymofs_runtime_requested(&MountPlan::default(), &config, 0));
}

#[test]
fn hymofs_runtime_turns_on_for_structured_mount_hide_config() {
    let mut config = Config::default();
    config.hymofs.enabled = true;
    config.hymofs.mount_hide.path_pattern = "/dev/hymo_mirror".to_string();

    assert!(auxiliary_features_requested(&config, 0));
    assert!(hymofs_runtime_requested(&MountPlan::default(), &config, 0));
}

#[test]
fn hymofs_runtime_turns_on_for_spoof_configuration() {
    let mut config = Config::default();
    config.hymofs.enabled = true;
    config.hymofs.uname_release = "5.15.0-hymo".to_string();

    assert!(auxiliary_features_requested(&config, 0));
    assert!(hymofs_runtime_requested(&MountPlan::default(), &config, 0));
}

#[test]
fn hymofs_runtime_turns_on_for_hide_uids() {
    let mut config = Config::default();
    config.hymofs.enabled = true;
    config.hymofs.hide_uids = vec![1000, 2000];

    assert!(auxiliary_features_requested(&config, 0));
    assert!(hymofs_runtime_requested(&MountPlan::default(), &config, 0));
}

#[test]
fn hymofs_runtime_turns_on_for_kstat_rules() {
    let mut config = Config::default();
    config.hymofs.enabled = true;
    config.hymofs.kstat_rules.push(HymoKstatRuleConfig {
        target_ino: 11,
        target_pathname: "/system/bin/app_process64".to_string(),
        spoofed_ino: 22,
        spoofed_dev: 33,
        spoofed_nlink: 1,
        spoofed_size: 4096,
        spoofed_atime_sec: 10,
        spoofed_atime_nsec: 11,
        spoofed_mtime_sec: 12,
        spoofed_mtime_nsec: 13,
        spoofed_ctime_sec: 14,
        spoofed_ctime_nsec: 15,
        spoofed_blksize: 4096,
        spoofed_blocks: 8,
        is_static: true,
    });

    assert!(auxiliary_features_requested(&config, 0));
    assert!(hymofs_runtime_requested(&MountPlan::default(), &config, 0));
}

#[test]
fn hymofs_runtime_turns_on_for_extended_uname_fields() {
    let mut config = Config::default();
    config.hymofs.enabled = true;
    config.hymofs.uname.machine = "aarch64".to_string();

    assert!(auxiliary_features_requested(&config, 0));
    assert!(hymofs_runtime_requested(&MountPlan::default(), &config, 0));
}

#[test]
fn hymofs_runtime_turns_on_for_maps_rules() {
    let mut config = Config::default();
    config.hymofs.enabled = true;
    config.hymofs.maps_rules.push(HymoMapsRuleConfig {
        target_ino: 1,
        target_dev: 2,
        spoofed_ino: 3,
        spoofed_dev: 4,
        spoofed_pathname: "/dev/hymo_mirror/system/bin/sh".to_string(),
    });

    assert!(auxiliary_features_requested(&config, 0));
    assert!(hymofs_runtime_requested(&MountPlan::default(), &config, 0));
}

#[test]
fn hymofs_runtime_turns_on_for_structured_statfs_spoof_config() {
    let mut config = Config::default();
    config.hymofs.enabled = true;
    config.hymofs.statfs_spoof.path = "/system".to_string();
    config.hymofs.statfs_spoof.spoof_f_type = 0x794c7630;

    assert!(auxiliary_features_requested(&config, 0));
    assert!(hymofs_runtime_requested(&MountPlan::default(), &config, 0));
}

#[test]
fn hymofs_runtime_turns_on_for_user_hide_rules_alone() {
    let mut config = Config::default();
    config.hymofs.enabled = true;
    config.hymofs.enable_stealth = false;
    assert!(!auxiliary_features_requested(&config, 0));
    assert!(auxiliary_features_requested(&config, 3));
    assert!(hymofs_runtime_requested(&MountPlan::default(), &config, 3));
}
