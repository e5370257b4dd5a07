use hybrid_mount::conf::schema::Config;
use hybrid_mount::engine::executor::{overlay_rw_dirs, prepare_overlay_mount};
use hybrid_mount::engine::plan::OverlayOperation;

fn op(target: &str, partition: &str) -> OverlayOperation {
    OverlayOperation {
        partition_name: partition.to_string(),
        target: target.to_string(),
        lowerdirs: vec!["/mnt/a/system/bin".to_string(), "/mnt/b/system/bin".to_string()],
    }
}

#[test]
fn overlay_rw_dirs_sit_under_the_rw_directory() {
    let (upper, work) = overlay_rw_dirs("system");
    assert_eq!(upper, "/data/adb/hybrid-mount/rw/system/upperdir");
    assert_eq!(work, "/data/adb/hybrid-mount/rw/system/workdir");
}

#[test]
fn overlay_mount_uses_config_source_and_no_rw_dirs_by_default() {
    let config = Config::default();
    let m = prepare_overlay_mount(&op("/system/bin", "system"), &config, false);
    assert_eq!(m.target, "/system/bin");
    assert_eq!(m.lowerdirs, vec!["/mnt/a/system/bin", "/mnt/b/system/bin"]);
    assert_eq!(m.mount_source, "KSU");
    assert!(m.upperdir.is_none() && m.workdir.is_none());
}

#[test]
fn overlay_mount_keeps_plain_source_for_library_dirs() {
    let config = Config::default();
    let m = prepare_overlay_mount(&op(" /vendor/lib64 ", "vendor"), &config, true);
    assert_eq!(m.mount_source, "overlay");
    assert_eq!(m.upperdir.as_deref(), Some("/data/adb/hybrid-mount/rw/vendor/upperdir"));
    assert_eq!(m.workdir.as_deref(), Some("/data/adb/hybrid-mount/rw/vendor/workdir"));
}
