use std::collections::HashSet;

use hybrid_mount::conf::schema::{Config, OverlayMode};
use hybrid_mount::engine::executor::{
    collect_overlay_modules_for_magic_fallback, is_symlink_loop_mount_error,
    overlay_fallback_allowed, resolve_magic_failure_modules, MagicMountError,
    MagicMountModuleFailure,
};
use hybrid_mount::engine::plan::{MountPlan, OverlayOperation};

#[test]
fn executor_collect_overlay_modules_for_magic_fallback_deduplicates_modules() {
    let mut plan = MountPlan::default();
    plan.overlay_ops.push(OverlayOperation {
        partition_name: "system".to_string(),
        target: "/system/bin".to_string(),
        lowerdirs: vec!["/modA/system".to_string(), "/modB/system".to_string()],
    });
    plan.overlay_ops.push(OverlayOperation {
        partition_name: "vendor".to_string(),
        target: "/vendor/lib".to_string(),
        lowerdirs: vec!["/modA/vendor".to_string(), "/modC/vendor".to_string()],
    });

    let result: HashSet<String> = collect_overlay_modules_for_magic_fallback(&plan).into_iter().collect();
    let expected = HashSet::from(["modA".to_string(), "modB".to_string(), "modC".to_string()]);
    assert_eq!(result, expected);
}

#[test]
fn executor_symlink_loop_detection_matches_expected_messages() {
    let err = vec![
        "Failed to fsconfig create new fs: Too many symbolic links encountered (os error 40)"
            .to_string(),
    ];
    assert!(is_symlink_loop_mount_error(&err));

    let other = vec!["permission denied".to_string()];
    assert!(!is_symlink_loop_mount_error(&other));
}

#[test]
fn executor_resolve_magic_failure_modules_prefers_precise_modules() {
    let err = MagicMountError::Modules(MagicMountModuleFailure::new(
        vec!["modB".to_string(), "modA".to_string()],
        "tmpfs mount failed".to_string(),
    ));
    let fallback = vec!["modA".to_string(), "modB".to_string(), "modC".to_string()];

    let result = resolve_magic_failure_modules(&err, &fallback);
    assert_eq!(result, vec!["modB".to_string(), "modA".to_string()]);
}

#[test]
fn executor_resolve_magic_failure_modules_falls_back_when_untyped_error() {
    let err = MagicMountError::Other(vec!["unknown magic mount error".to_string()]);
    let fallback = vec!["modA".to_string(), "modC".to_string()];

    let result = resolve_magic_failure_modules(&err, &fallback);
    assert_eq!(result, fallback);
}

#[test]
fn mod_collect_overlay_modules_for_magic_fallback_deduplicates_modules() {
    let mut plan = MountPlan::default();
    plan.overlay_ops.push(OverlayOperation {
        partition_name: "system".to_string(),
        target: "/system/bin".to_string(),
        lowerdirs: vec!["/modA/system".to_string(), "/modB/system".to_string()],
    });
    plan.overlay_ops.push(OverlayOperation {
        partition_name: "vendor".to_string(),
        target: "/vendor/lib".to_string(),
        lowerdirs: vec!["/modA/vendor".to_string(), "/modC/vendor".to_string()],
    });

    let result: HashSet<String> = collect_overlay_modules_for_magic_fallback(&plan).into_iter().collect();
    let expected = HashSet::from(["modA".to_string(), "modB".to_string(), "modC".to_string()]);
    assert_eq!(result, expected);
}

#[test]
fn mod_symlink_loop_detection_matches_expected_messages() {
    let err = vec![
        "Failed to fsconfig create new fs: Too many symbolic links encountered (os error 40)"
            .to_string(),
    ];
    assert!(is_symlink_loop_mount_error(&err));

    let other = vec!["permission denied".to_string()];
    assert!(!is_symlink_loop_mount_error(&other));
}

#[test]
fn mod_resolve_magic_failure_modules_prefers_precise_modules() {
    let err = MagicMountError::Modules(MagicMountModuleFailure::new(
        vec!["modB".to_string(), "modA".to_string()],
        "tmpfs mount failed".to_string(),
    ));
    let fallback = vec!["modA".to_string(), "modB".to_string(), "modC".to_string()];

    let result = resolve_magic_failure_modules(&err, &fallback);
    assert_eq!(result, vec!["modB".to_string(), "modA".to_string()]);
}

#[test]
fn mod_resolve_magic_failure_modules_falls_back_when_untyped_error() {
    let err = MagicMountError::Other(vec!["unknown magic mount error".to_string()]);
    let fallback = vec!["modA".to_string(), "modC".to_string()];

    let result = resolve_magic_failure_modules(&err, &fallback);
    assert_eq!(result, fallback);
}

#[test]
fn overlay_fallback_is_controlled_by_enable_overlay_fallback() {
    let mut cfg = Config {
        overlay_mode: OverlayMode::Tmpfs,
        ..Config::default()
    };
    cfg.enable_overlay_fallback = false;
    assert!(!overlay_fallback_allowed(&cfg));

    cfg.enable_overlay_fallback = true;
    assert!(overlay_fallback_allowed(&cfg));
}
