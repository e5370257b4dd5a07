use hybrid_mount::conf::schema::Config;
use hybrid_mount::engine::controller::{clean_up, CleanUp};
use hybrid_mount::engine::module_status::{update_crash_description, update_description};
use hybrid_mount::engine::recovery::FailureStage;
use hybrid_mount::engine::sync::{
    build_managed_partitions, has_managed_mount_root, is_orphan_entry, sync_failure, sync_paths,
    ModuleSync, SyncAction, SyncEvent, SyncFailure, SyncPhase,
};
use hybrid_mount::engine::system_api::{
    build_partitions_payload, error_payload, parse_mount_entries, selinux_label, storage_mode_label,
    PartitionProbe,
};

#[test]
fn managed_partitions_are_builtin_plus_configured_sorted() {
    let mut config = Config::default();
    assert_eq!(
        build_managed_partitions(&config),
        vec!["apex", "odm", "oem", "product", "system", "system_ext", "vendor"]
    );
    config.partitions = vec!["my_product".to_string(), "vendor".to_string()];
    assert_eq!(
        build_managed_partitions(&config),
        vec!["apex", "my_product", "odm", "oem", "product", "system", "system_ext", "vendor"]
    );
}

#[test]
fn orphans_are_unknown_visible_entries() {
    let active = vec!["mod_a".to_string()];
    assert!(is_orphan_entry("mod_b", &active));
    assert!(!is_orphan_entry("mod_a", &active));
    assert!(!is_orphan_entry("lost+found", &active));
    assert!(!is_orphan_entry("hybrid_mount", &active));
    assert!(!is_orphan_entry(".tmp_mod_a", &active));
}

#[test]
fn sync_uses_temporary_and_backup_names() {
    let p = sync_paths("/mnt/hm", "mod_a");
    assert_eq!(p.dst, "/mnt/hm/mod_a");
    assert_eq!(p.backup, "/mnt/hm/.backup_mod_a");
    assert_eq!(p.tmp, "/mnt/hm/.tmp_mod_a");
}

#[test]
fn sync_failures_blame_the_module() {
    let f = sync_failure("mod_a", SyncFailure::Backup, "EBUSY");
    assert_eq!(f.stage, FailureStage::Sync);
    assert_eq!(f.module_ids, vec!["mod_a"]);
    assert_eq!(f.message, "Failed to back up module mod_a: EBUSY");
    assert_eq!(sync_failure("m", SyncFailure::Copy, "e").message, "Failed to sync module m: e");
    assert_eq!(sync_failure("m", SyncFailure::Commit, "e").message, "Failed to commit synced module m: e");
}

#[test]
fn modules_without_partition_roots_are_skipped() {
    assert!(!has_managed_mount_root(&vec![false, false]));
    assert!(has_managed_mount_root(&vec![false, true]));
    assert!(!has_managed_mount_root(&vec![]));
}

#[test]
fn mount_table_lines_give_entries() {
    let table = "/dev/block/dm-0 / ext4 ro,seclabel 0 0\ntmpfs /dev tmpfs rw,nosuid 0 0\nshort line\n";
    let entries = parse_mount_entries(table);
    assert_eq!(entries.len(), 2);
    assert_eq!(entries[0].mount_point, "/");
    assert_eq!(entries[0].fs_type, "ext4");
    assert!(entries[0].is_read_only);
    assert_eq!(entries[1].mount_point, "/dev");
    assert!(!entries[1].is_read_only);
}

fn probes_for(config: &Config, present: &[(&str, bool, &str)]) -> Vec<PartitionProbe> {
    build_managed_partitions(config)
        .into_iter()
        .map(|name| match present.iter().find(|p| p.0 == name) {
            Some((_, link, resolved)) => {
                PartitionProbe { name: name.clone(), exists: true, is_symlink: *link, resolved: resolved.to_string() }
            }
            None => PartitionProbe { resolved: format!("/{name}"), name, exists: false, is_symlink: false },
        })
        .collect()
}

#[test]
fn partitions_payload_reports_existing_partitions() {
    let config = Config::default();
    let entries = parse_mount_entries("/dev/a /vendor erofs ro 0 0\n/dev/b /system_ext ext4 rw 0 0\n");
    let probes = probes_for(&config, &[("vendor", false, "/vendor"), ("product", true, "/system/product")]);
    let infos = build_partitions_payload(&config, &probes, &Some(entries));
    assert_eq!(infos.len(), 2);
    assert_eq!(infos[0].name, "product");
    assert!(infos[0].exists_as_symlink);
    assert_eq!(infos[0].fs_type, "");
    assert!(!infos[0].is_read_only);
    assert_eq!(infos[1].name, "vendor");
    assert_eq!(infos[1].mount_point, "/vendor");
    assert_eq!(infos[1].fs_type, "erofs");
    assert!(infos[1].is_read_only);
}

#[test]
fn partitions_payload_is_empty_without_mount_table() {
    let config = Config::default();
    let probes = probes_for(&config, &[("vendor", false, "/vendor")]);
    assert!(build_partitions_payload(&config, &probes, &None).is_empty());
}

#[test]
fn selinux_and_storage_labels() {
    assert_eq!(selinux_label("0\n"), "Permissive");
    assert_eq!(selinux_label(" 1 "), "Enforcing");
    assert_eq!(selinux_label("weird"), "weird");
    assert_eq!(selinux_label("  "), "Unknown");
    assert_eq!(storage_mode_label(""), "unknown");
    assert_eq!(storage_mode_label("ext4"), "ext4");
}

#[test]
fn error_payloads_carry_the_message() {
    let e = error_payload("boom".to_string());
    assert_eq!(e.kind, "error");
    assert_eq!(e.error, "boom");
    assert!(e.code.is_none());
}

#[test]
fn module_descriptions() {
    assert_eq!(
        update_description("tmpfs", 2, 1, 0),
        "😋 运行中喵～ (Tmpfs) 🐾  Overlay: 2  Magic: 1"
    );
    assert_eq!(
        update_description("ext4", 0, 0, 3),
        "😋 运行中喵～ (Ext4) 💿  HymoFS: 3  Overlay: 0  Magic: 0"
    );
    assert_eq!(update_crash_description("oops"), "😭 崩溃了呜～ 原因: oops");
}

#[test]
fn clean_up_keeps_the_mirror_inside_the_tempdir() {
    assert_eq!(clean_up("/mnt/session", "/dev/hymo_mirror", false), CleanUp::RemoveAll);
    assert_eq!(
        clean_up("/mnt/session", "/mnt/session/hymofs/x", false),
        CleanUp::RemoveAllBut("hymofs".to_string())
    );
    assert_eq!(clean_up("/mnt/session", "/mnt/session", false), CleanUp::Skip);
    assert_eq!(clean_up("/mnt/session", "/dev/hymo_mirror", true), CleanUp::Skip);
    assert_eq!(clean_up("/data/tmp", "/dev/hymo_mirror", false), CleanUp::Skip);
}

#[test]
fn sync_replaces_the_staged_copy_through_a_backup() {
    let mut s = ModuleSync::new("/mnt/hm", "mod_a");
    assert_eq!(s.paths.tmp, "/mnt/hm/.tmp_mod_a");
    assert!(matches!(s.step(SyncEvent::Begin { has_root: true, tmp_exists: true }), SyncAction::RemoveTmp));
    assert!(matches!(s.step(SyncEvent::TmpCleared), SyncAction::CopyToTmp));
    assert!(matches!(s.step(SyncEvent::Copied(Ok((true, true)))), SyncAction::BackUp));
    assert!(matches!(s.step(SyncEvent::BackedUp(Ok(()))), SyncAction::Commit));
    assert!(matches!(s.step(SyncEvent::Committed(Ok(()))), SyncAction::RemoveBackup));
    assert!(matches!(s.step(SyncEvent::BackupRemoved), SyncAction::Finish(Ok(true))));
    assert_eq!(s.phase, SyncPhase::Finished);
}

#[test]
fn sync_skips_modules_without_roots_or_content() {
    let mut s = ModuleSync::new("/mnt/hm", "mod_a");
    assert!(matches!(s.step(SyncEvent::Begin { has_root: false, tmp_exists: true }), SyncAction::Finish(Ok(false))));
    let mut s = ModuleSync::new("/mnt/hm", "mod_a");
    assert!(matches!(s.step(SyncEvent::Begin { has_root: true, tmp_exists: false }), SyncAction::CopyToTmp));
    assert!(matches!(s.step(SyncEvent::Copied(Ok((false, true)))), SyncAction::RemoveTmp));
    assert!(matches!(s.step(SyncEvent::TmpCleared), SyncAction::Finish(Ok(false))));
}

#[test]
fn failed_commit_restores_the_backup_then_fails() {
    let mut s = ModuleSync::new("/mnt/hm", "mod_a");
    s.step(SyncEvent::Begin { has_root: true, tmp_exists: false });
    s.step(SyncEvent::Copied(Ok((true, true))));
    s.step(SyncEvent::BackedUp(Ok(())));
    assert!(matches!(s.step(SyncEvent::Committed(Err("EXDEV".to_string()))), SyncAction::Restore));
    assert!(matches!(s.step(SyncEvent::Restored), SyncAction::RemoveTmp));
    match s.step(SyncEvent::TmpCleared) {
        SyncAction::Finish(Err(f)) => {
            assert_eq!(f.module_ids, vec!["mod_a"]);
            assert_eq!(f.message, "Failed to commit synced module mod_a: EXDEV");
        }
        _ => panic!("expected a failure"),
    }
}

#[test]
fn failed_copy_cleans_up_then_fails() {
    let mut s = ModuleSync::new("/mnt/hm", "mod_b");
    s.step(SyncEvent::Begin { has_root: true, tmp_exists: false });
    assert!(matches!(s.step(SyncEvent::Copied(Err("ENOSPC".to_string()))), SyncAction::RemoveTmp));
    match s.step(SyncEvent::TmpCleared) {
        SyncAction::Finish(Err(f)) => assert_eq!(f.message, "Failed to sync module mod_b: ENOSPC"),
        _ => panic!("expected a failure"),
    }
}
