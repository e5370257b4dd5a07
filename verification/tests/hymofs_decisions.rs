use hybrid_mount::conf::schema::Config;
use hybrid_mount::domain::{ModuleRules, MountMode};
use hybrid_mount::engine::hymofs::{
    apply_runtime_switches, apply_spoof_settings, apply_start, build_dtype, compile_entry,
    compile_module_order, feature_supported, reset_allowed, tree_file_type_from_dtype, CompileStep,
    CompiledRules, EntryKind, HymofsTreeFileType, RuleApplyStart, SwitchStep, DT_CHR, DT_DIR,
    DT_LNK, DT_REG, DT_UNKNOWN, HYMO_FEATURE_MOUNT_HIDE, HYMO_FEATURE_STATFS_SPOOF,
};
use hybrid_mount::engine::plan::MountPlan;

#[test]
fn features_are_assumed_when_unknown() {
    assert!(feature_supported(None, HYMO_FEATURE_MOUNT_HIDE));
    assert!(feature_supported(Some(HYMO_FEATURE_MOUNT_HIDE | HYMO_FEATURE_STATFS_SPOOF), HYMO_FEATURE_MOUNT_HIDE));
    assert!(!feature_supported(Some(HYMO_FEATURE_STATFS_SPOOF), HYMO_FEATURE_MOUNT_HIDE));
}

#[test]
fn dtypes_of_entries() {
    assert_eq!(build_dtype(EntryKind::File, 0), (DT_REG, false));
    assert_eq!(build_dtype(EntryKind::Symlink, 0), (DT_LNK, false));
    assert_eq!(build_dtype(EntryKind::CharDevice, 0), (DT_UNKNOWN, true));
    assert_eq!(build_dtype(EntryKind::CharDevice, 7), (DT_CHR, false));
    assert_eq!(tree_file_type_from_dtype(DT_DIR), HymofsTreeFileType::Directory);
    assert_eq!(tree_file_type_from_dtype(DT_LNK), HymofsTreeFileType::Symlink);
    assert_eq!(tree_file_type_from_dtype(99), HymofsTreeFileType::Unknown);
}

#[test]
fn runtime_switches_follow_config_and_features() {
    let mut config = Config::default();
    assert!(apply_runtime_switches(&config, false, None).is_none());
    config.hymofs.enable_mount_hide = true;
    config.hymofs.mount_hide.path_pattern = "/data/*".to_string();
    config.hymofs.statfs_spoof.spoof_f_type = 0x794c7630;
    let s = apply_runtime_switches(&config, true, Some(HYMO_FEATURE_MOUNT_HIDE)).unwrap();
    assert_eq!(s.mount_hide, SwitchStep::Apply(Some("/data/*".to_string())));
    assert_eq!(s.statfs_spoof, SwitchStep::Unsupported);
    assert_eq!(s.maps_spoof, SwitchStep::Off);
    assert!(s.stealth);
    let s = apply_runtime_switches(&config, true, None).unwrap();
    assert_eq!(s.statfs_spoof, SwitchStep::Apply(Some((String::new(), 0x794c7630))));
}

#[test]
fn spoof_settings_prefer_the_explicit_release() {
    let mut config = Config::default();
    config.hymofs.uname.release = "5.10".to_string();
    config.hymofs.uname_release = "6.1".to_string();
    config.hymofs.uname.machine = "aarch64".to_string();
    config.hymofs.cmdline_value = "quiet".to_string();
    config.hymofs.hide_uids = vec![1000, 2000];
    let s = apply_spoof_settings(&config, None);
    match s.uname {
        SwitchStep::Apply(u) => {
            assert_eq!(u.release.as_deref(), Some("6.1"));
            assert_eq!(u.machine.as_deref(), Some("aarch64"));
            assert!(u.sysname.is_none());
        }
        _ => panic!("uname should be applied"),
    }
    assert_eq!(s.cmdline, SwitchStep::Apply("quiet".to_string()));
    assert_eq!(s.hide_uids, Some(vec![1000, 2000]));
    assert_eq!(s.kstat_rules, SwitchStep::Off);
    let s = apply_spoof_settings(&config, Some(0));
    assert_eq!(s.cmdline, SwitchStep::Unsupported);
}

#[test]
fn rule_application_start() {
    let mut config = Config::default();
    let mut plan = MountPlan::default();
    assert_eq!(apply_start(&plan, &config, true, 0), RuleApplyStart::Disabled);
    config.hymofs.enabled = true;
    assert_eq!(apply_start(&plan, &config, false, 0), RuleApplyStart::Unavailable);
    plan.hymofs_module_ids.push("mod_a".to_string());
    assert_eq!(
        apply_start(&plan, &config, false, 0),
        RuleApplyStart::Fail("HymoFS became unavailable before rule application".to_string())
    );
    assert_eq!(
        apply_start(&plan, &config, true, 0),
        RuleApplyStart::Proceed { runtime_requested: true, compile: true }
    );
    assert!(reset_allowed(&config, true));
    assert!(!reset_allowed(&config, false));
}

#[test]
fn compile_steps_of_mirror_entries() {
    let rules = ModuleRules { default_mode: MountMode::Hymofs, paths: vec![("vendor".to_string(), MountMode::Overlay)] };
    let reg = (DT_REG, false);
    assert_eq!(compile_entry(&rules, "vendor/lib/a.so", "a.so", EntryKind::File, false, false, reg), CompileStep::Skip);
    assert_eq!(compile_entry(&rules, "system/bin/sh", "sh", EntryKind::File, true, false, reg), CompileStep::Add(DT_REG));
    assert_eq!(compile_entry(&rules, "system/etc", "etc", EntryKind::Dir, true, true, (DT_DIR, false)), CompileStep::Merge);
    assert_eq!(compile_entry(&rules, "system/new", "new", EntryKind::Dir, false, false, (DT_DIR, false)), CompileStep::Skip);
    assert_eq!(compile_entry(&rules, "system/lnk", "lnk", EntryKind::Symlink, true, true, (DT_LNK, false)), CompileStep::SkipLinkToDir);
    assert_eq!(compile_entry(&rules, "system/gone", "gone", EntryKind::CharDevice, true, false, (DT_UNKNOWN, true)), CompileStep::Hide);
    assert_eq!(compile_entry(&rules, "system/.replace", ".replace", EntryKind::File, false, false, reg), CompileStep::Skip);
}

#[test]
fn compiled_rules_record_each_step() {
    let mut c = CompiledRules::new();
    c.record(CompileStep::Merge, "/system/etc".to_string(), "/m/a/system/etc".to_string());
    c.record(CompileStep::Add(DT_REG), "/system/bin/sh".to_string(), "/m/a/system/bin/sh".to_string());
    c.record(CompileStep::Hide, "/system/xbin/su".to_string(), "/m/a/system/xbin/su".to_string());
    c.record(CompileStep::Skip, "/x".to_string(), "/y".to_string());
    assert_eq!(c.merge_rules.len(), 1);
    assert_eq!(c.add_rules[0].file_type, DT_REG);
    assert_eq!(c.hide_rules, vec!["/system/xbin/su"]);
}

#[test]
fn mirrors_compile_last_module_first() {
    let ids = vec!["a".to_string(), "b".to_string(), "c".to_string()];
    let active = vec!["c".to_string(), "a".to_string()];
    assert_eq!(compile_module_order(&ids, &active), vec![2, 0]);
}
