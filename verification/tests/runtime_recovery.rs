use hybrid_mount::engine::executor::ExecutionResult;
use hybrid_mount::engine::recovery::{
    build_reason, retry_limit_error, FailureStage, ModuleStageFailure, RecoveryState, RunDecision,
};
use hybrid_mount::engine::runtime_state::{
    collect_active_mounts, collect_skip_mount_modules, MountStatistics, SkipEntry,
};

fn stats(total: usize, ok: usize, failed: usize) -> MountStatistics {
    MountStatistics {
        total_mounts: total,
        successful_mounts: ok,
        failed_mounts: failed,
        tmpfs_created: 1,
        files_mounted: 2,
        dirs_mounted: 3,
        symlinks_created: 4,
        overlayfs_mounts: 5,
        ignored_entries: 6,
    }
}

#[test]
fn mount_statistics_record_counts() {
    let mut s = MountStatistics::default();
    s.record_file();
    s.record_dir();
    s.record_symlink();
    s.record_failed();
    s.record_tmpfs();
    s.record_overlay_mount();
    s.record_ignored();
    assert_eq!(s.total_mounts, 5);
    assert_eq!(s.successful_mounts, 4);
    assert_eq!(s.failed_mounts, 1);
    assert_eq!(s.files_mounted, 1);
    assert_eq!(s.dirs_mounted, 1);
    assert_eq!(s.symlinks_created, 1);
    assert_eq!(s.tmpfs_created, 1);
    assert_eq!(s.overlayfs_mounts, 1);
    assert_eq!(s.ignored_entries, 1);
}

#[test]
fn mount_statistics_merge_adds_fieldwise_and_commutes() {
    let a = stats(3, 2, 1);
    let b = stats(10, 7, 3);
    let mut ab = a;
    ab.merge(&b);
    let mut ba = b;
    ba.merge(&a);
    assert_eq!(ab, ba);
    assert_eq!(ab.total_mounts, 13);
    assert_eq!(ab.successful_mounts + ab.failed_mounts, ab.total_mounts);
    assert_eq!(ab.ignored_entries, 12);
    let mut z = a;
    z.merge(&MountStatistics::default());
    assert_eq!(z, a);
}

#[test]
fn active_mounts_list_partitions_and_hymofs() {
    let result = ExecutionResult {
        overlay_module_ids: vec![],
        overlay_partitions: vec!["vendor".to_string(), "system".to_string(), "vendor".to_string()],
        magic_module_ids: vec![],
        hymofs_module_ids: vec![],
        hymofs_runtime_enabled: true,
        mount_stats: MountStatistics::default(),
    };
    assert_eq!(collect_active_mounts(&result), vec!["hymofs", "system", "vendor"]);
}

#[test]
fn skip_mount_modules_are_directories_with_the_marker() {
    let entries = vec![
        SkipEntry { id: "b".to_string(), is_dir: true, has_skip_mount: true },
        SkipEntry { id: "a".to_string(), is_dir: true, has_skip_mount: true },
        SkipEntry { id: "c".to_string(), is_dir: false, has_skip_mount: true },
        SkipEntry { id: "d".to_string(), is_dir: true, has_skip_mount: false },
        SkipEntry { id: "lost+found".to_string(), is_dir: true, has_skip_mount: true },
    ];
    assert_eq!(collect_skip_mount_modules(&entries), vec!["a", "b"]);
}

#[test]
fn retry_limit_message_names_the_rounds() {
    assert_eq!(
        retry_limit_error(3),
        "Auto-recovery reached restart limit (3 rounds), aborting to avoid loop"
    );
}

#[test]
fn reasons_name_the_stage_and_flatten_newlines() {
    assert_eq!(build_reason("sync", None), "stage=sync");
    assert_eq!(build_reason("sync", Some("  ")), "stage=sync");
    assert_eq!(build_reason("execute", Some("a\nb")), "stage=execute; error=a -> b");
    let long = "x".repeat(250);
    let r = build_reason("sync", Some(&long));
    assert_eq!(r, format!("stage=sync; error={}…", "x".repeat(200)));
}

fn recovery() -> RecoveryState {
    RecoveryState::new(vec![
        ("a".to_string(), "/m/a".to_string()),
        ("b".to_string(), "/m/b".to_string()),
    ])
}

#[test]
fn module_failure_marks_and_retries_then_gives_up() {
    let mut r = recovery();
    assert_eq!(r.max_restarts(), 3);
    let f = ModuleStageFailure::new(FailureStage::Sync, vec!["a".to_string(), "x".to_string()], "boom".to_string());
    let (d, out) = r.on_boot_failure(Some(&f), "boom");
    assert!(matches!(d, RunDecision::Retry));
    let out = out.unwrap();
    assert_eq!(out.newly_marked, vec!["a"]);
    assert_eq!(out.marker_dirs, vec!["/m/a"]);
    assert_eq!(out.unknown_modules, vec!["x"]);
    assert_eq!(r.current_attempt(), 2);

    let (d, out) = r.on_boot_failure(Some(&f), "boom\nagain");
    let out = out.unwrap();
    assert_eq!(out.already_marked, vec!["a"]);
    assert!(matches!(d, RunDecision::Unrecoverable(ref t) if t == "boom -> again"));
}

#[test]
fn failure_without_modules_retries_once() {
    let mut r = recovery();
    let f = ModuleStageFailure::new(FailureStage::Execute, vec![], "odd".to_string());
    let (d, out) = r.on_boot_failure(Some(&f), "odd");
    assert!(matches!(d, RunDecision::Retry));
    assert!(out.is_none());
    let (d, _) = r.on_boot_failure(Some(&f), "odd");
    assert!(matches!(d, RunDecision::Unrecoverable(_)));
}

#[test]
fn failure_without_module_error_is_unrecoverable() {
    let mut r = recovery();
    let (d, out) = r.on_boot_failure(None, "disk\nfull");
    assert!(matches!(d, RunDecision::Unrecoverable(ref t) if t == "disk -> full"));
    assert!(out.is_none());
}

#[test]
fn restarts_stop_at_the_limit() {
    let mut r = RecoveryState::new(vec![("a".to_string(), "/m/a".to_string())]);
    assert_eq!(r.max_restarts(), 2);
    let f = ModuleStageFailure::new(FailureStage::Sync, vec!["a".to_string()], "e".to_string());
    let (d, _) = r.on_boot_failure(Some(&f), "e");
    assert!(matches!(d, RunDecision::Retry));
    let g = ModuleStageFailure::new(FailureStage::Sync, vec![], "e".to_string());
    let (d, _) = r.on_boot_failure(Some(&g), "e");
    assert!(matches!(d, RunDecision::Retry));
    assert_eq!(r.current_attempt(), 3);
    let (d, _) = r.on_boot_failure(Some(&f), "e");
    assert!(matches!(d, RunDecision::Unrecoverable(_)));
}
