use hybrid_mount::conf::schema::Config;
use hybrid_mount::domain::{ModuleRules, MountMode};
use hybrid_mount::engine::executor::{
    ExecAction, ExecError, ExecEvent, Executor, MagicMountError,
};
use hybrid_mount::engine::plan::{MountPlan, OverlayOperation};
use hybrid_mount::engine::planner::{
    effective_mount_mode, file_name_text, generate, groups_in_target_order, is_valid_child_name, join_path,
    path_has_descendant_rule, plan_module_roots, sort_layers, DirListing, ModuleWalk, PlannerContext,
    ProcessingItem, RootEntry,
};
use hybrid_mount::engine::runtime_state::MountStatistics;

fn managed() -> Vec<String> {
    vec!["system".to_string(), "vendor".to_string()]
}

fn overlay_rules() -> ModuleRules {
    ModuleRules { default_mode: MountMode::Overlay, paths: vec![] }
}

#[test]
fn kernel_modes_need_the_redirection_backend() {
    assert_eq!(effective_mount_mode(MountMode::Hymofs, false), MountMode::Ignore);
    assert_eq!(effective_mount_mode(MountMode::Kasumi, false), MountMode::Ignore);
    assert_eq!(effective_mount_mode(MountMode::Kasumi, true), MountMode::Kasumi);
    assert_eq!(effective_mount_mode(MountMode::Magic, false), MountMode::Magic);
}

#[test]
fn descendant_rules_are_strictly_below() {
    let paths = vec![("system/bin/tool".to_string(), MountMode::Magic)];
    assert!(path_has_descendant_rule(&paths, "system"));
    assert!(path_has_descendant_rule(&paths, "system/bin"));
    assert!(!path_has_descendant_rule(&paths, "system/bin/tool"));
    assert!(!path_has_descendant_rule(&paths, "system/b"));
}

#[test]
fn file_names_and_child_names() {
    assert_eq!(file_name_text("/system/bin/"), "bin");
    assert_eq!(file_name_text("/system/.."), "");
    assert_eq!(file_name_text("/"), "");
    assert!(is_valid_child_name("bin"));
    assert!(!is_valid_child_name(""));
    assert!(!is_valid_child_name("."));
    assert!(!is_valid_child_name(".."));
    assert!(!is_valid_child_name("a/b"));
    assert_eq!(join_path("/system", "bin"), "/system/bin");
    assert_eq!(join_path("/", "bin"), "/bin");
}

#[test]
fn module_roots_are_managed_real_directories() {
    let entries = vec![
        RootEntry { name: "system".to_string(), path: "/m/a/system".to_string(), is_dir: true, is_symlink: false },
        RootEntry { name: "vendor".to_string(), path: "/m/a/vendor".to_string(), is_dir: true, is_symlink: true },
        RootEntry { name: "webroot".to_string(), path: "/m/a/webroot".to_string(), is_dir: true, is_symlink: false },
        RootEntry { name: "module.prop".to_string(), path: "/m/a/module.prop".to_string(), is_dir: false, is_symlink: false },
    ];
    let items = plan_module_roots(&entries, "/", &managed());
    assert_eq!(items.len(), 1);
    assert_eq!(items[0].module_source, "/m/a/system");
    assert_eq!(items[0].system_target, "/system");
    assert_eq!(items[0].relative_path, "system");
    assert_eq!(items[0].partition_label, "system");
}

#[test]
fn partition_roots_are_split_and_leaves_queued() {
    let mut ctx = PlannerContext::new(false, false, managed());
    let rules = overlay_rules();
    let root = ProcessingItem {
        module_source: "/modA/system".to_string(),
        system_target: "/system".to_string(),
        relative_path: "system".to_string(),
        partition_label: "system".to_string(),
    };
    let listing = DirListing {
        child_dirs: vec![("bin".to_string(), "/modA/system/bin".to_string()), ("..".to_string(), "/x".to_string())],
        has_non_dir_entries: false,
    };
    let (presence, children) = ctx.visit_directory(&rules, root, Some(listing), true, "/system".to_string());
    assert!(!presence.magic && !presence.kasumi);
    assert_eq!(children.len(), 1);
    assert_eq!(children[0].system_target, "/system/bin");
    assert_eq!(children[0].relative_path, "system/bin");
    assert_eq!(children[0].partition_label, "system");

    let leaf = children[0].clone();
    let listing = DirListing { child_dirs: vec![], has_non_dir_entries: true };
    let (_, more) = ctx.visit_directory(&rules, leaf, Some(listing), true, "/system/bin".to_string());
    assert!(more.is_empty());
    let groups = ctx.into_overlay_groups();
    assert_eq!(groups.len(), 1);
    assert_eq!(groups[0].target, "/system/bin");
    assert_eq!(groups[0].partition, "system");
    assert_eq!(groups[0].layers, vec!["/modA/system/bin"]);
}

#[test]
fn magic_directories_report_magic_and_stop() {
    let mut ctx = PlannerContext::new(false, false, managed());
    let rules = ModuleRules { default_mode: MountMode::Magic, paths: vec![] };
    let item = ProcessingItem {
        module_source: "/modA/system".to_string(),
        system_target: "/system".to_string(),
        relative_path: "system".to_string(),
        partition_label: "system".to_string(),
    };
    let listing = DirListing { child_dirs: vec![], has_non_dir_entries: true };
    let (presence, children) = ctx.visit_directory(&rules, item, Some(listing), true, "/system".to_string());
    assert!(presence.magic);
    assert!(children.is_empty());
    assert!(ctx.into_overlay_groups().is_empty());
}

#[test]
fn unreadable_directories_plan_nothing() {
    let mut ctx = PlannerContext::new(false, false, managed());
    let item = ProcessingItem {
        module_source: "/modA/system".to_string(),
        system_target: "/system".to_string(),
        relative_path: "system".to_string(),
        partition_label: "system".to_string(),
    };
    let (presence, children) = ctx.visit_directory(&overlay_rules(), item, None, true, "/system".to_string());
    assert!(!presence.magic && children.is_empty());
}

#[test]
fn layers_follow_module_order() {
    let ids = vec!["modA".to_string(), "modB".to_string()];
    let layers = vec!["/modB/system".to_string(), "/zzz".to_string(), "/modA/system".to_string()];
    assert_eq!(sort_layers(&layers, &ids), vec!["/modA/system", "/modB/system", "/zzz"]);
}

#[test]
fn generate_keeps_directory_targets_and_sorts_layers() {
    let mut ctx = PlannerContext::new(false, false, managed());
    ctx.queue_overlay("/system/bin".to_string(), "system", "/modB/bin".to_string());
    ctx.queue_overlay("/system/bin".to_string(), "system", "/modA/bin".to_string());
    ctx.queue_overlay("/system/app".to_string(), "system", "/modC/app".to_string());
    let groups = ctx.into_overlay_groups();
    assert_eq!(groups[0].target, "/system/app");
    let ids = vec!["modA".to_string(), "modB".to_string(), "modC".to_string()];
    let plan = generate(groups, &vec![false, true], &ids, &vec!["modC".to_string()], &vec![]);
    assert_eq!(plan.overlay_ops.len(), 1);
    assert_eq!(plan.overlay_ops[0].target, "/system/bin");
    assert_eq!(plan.overlay_ops[0].lowerdirs, vec!["/modA/bin", "/modB/bin"]);
    assert_eq!(plan.overlay_module_ids, vec!["modA", "modB"]);
    assert_eq!(plan.magic_module_ids, vec!["modC"]);
    assert!(plan.hymofs_module_ids.is_empty());
}

fn one_overlay_plan() -> MountPlan {
    let mut plan = MountPlan::default();
    plan.overlay_ops.push(OverlayOperation {
        partition_name: "system".to_string(),
        target: "/system/bin".to_string(),
        lowerdirs: vec!["/modA/system".to_string(), "/modB/system".to_string()],
    });
    plan
}

#[test]
fn executor_runs_overlays_then_commits_umount() {
    let config = Config::default();
    let mut plan = one_overlay_plan();
    let mut exec = Executor::new(&plan);
    assert!(matches!(exec.execute(&mut plan, &config, ExecEvent::Begin), ExecAction::CheckOverlaySupport));
    assert!(matches!(
        exec.execute(&mut plan, &config, ExecEvent::OverlaySupport(Ok(true))),
        ExecAction::MountOverlay(0)
    ));
    assert!(matches!(
        exec.execute(&mut plan, &config, ExecEvent::OverlayMounted(Ok(()))),
        ExecAction::CommitUmount
    ));
    match exec.execute(&mut plan, &config, ExecEvent::UmountCommitted) {
        ExecAction::Done(result) => {
            assert_eq!(result.overlay_module_ids, vec!["modA", "modB"]);
            assert_eq!(result.overlay_partitions, vec!["system"]);
            assert!(result.magic_module_ids.is_empty());
            assert_eq!(result.mount_stats.overlayfs_mounts, 1);
            assert_eq!(result.mount_stats.total_mounts, 1);
        }
        _ => panic!("expected the run to finish"),
    }
}

#[test]
fn executor_without_overlayfs_fails_unless_fallback() {
    let config = Config::default();
    let mut plan = one_overlay_plan();
    let mut exec = Executor::new(&plan);
    exec.execute(&mut plan, &config, ExecEvent::Begin);
    match exec.execute(&mut plan, &config, ExecEvent::OverlaySupport(Ok(false))) {
        ExecAction::Fail(ExecError::Other(m)) => {
            assert_eq!(m, "[executor] overlayfs unsupported and overlay operations are pending")
        }
        _ => panic!("expected a failure"),
    }
}

#[test]
fn executor_falls_back_to_magic_mount() {
    let mut config = Config::default();
    config.enable_overlay_fallback = true;
    let mut plan = one_overlay_plan();
    let mut exec = Executor::new(&plan);
    exec.execute(&mut plan, &config, ExecEvent::Begin);
    match exec.execute(&mut plan, &config, ExecEvent::OverlaySupport(Ok(false))) {
        ExecAction::MountMagic(ids, _) => assert_eq!(ids, vec!["modA", "modB"]),
        _ => panic!("expected magic mount"),
    }
    let mut stats = MountStatistics::default();
    stats.record_file();
    match exec.execute(
        &mut plan,
        &config,
        ExecEvent::MagicMounted(Ok((vec!["modA".to_string()], stats))),
    ) {
        ExecAction::CommitUmount => {}
        _ => panic!("expected the umount step"),
    }
    match exec.execute(&mut plan, &config, ExecEvent::UmountCommitted) {
        ExecAction::Done(result) => {
            assert_eq!(result.magic_module_ids, vec!["modA"]);
            assert_eq!(result.mount_stats.files_mounted, 1);
        }
        _ => panic!("expected the run to finish"),
    }
}

#[test]
fn executor_blames_magic_modules_on_failure() {
    let mut config = Config::default();
    config.enable_overlay_fallback = true;
    let mut plan = one_overlay_plan();
    let mut exec = Executor::new(&plan);
    exec.execute(&mut plan, &config, ExecEvent::Begin);
    exec.execute(&mut plan, &config, ExecEvent::OverlaySupport(Ok(false)));
    match exec.execute(
        &mut plan,
        &config,
        ExecEvent::MagicMounted(Err(MagicMountError::Other(vec!["bind".to_string(), "denied".to_string()]))),
    ) {
        ExecAction::Fail(ExecError::Stage(f)) => {
            assert_eq!(f.module_ids, vec!["modA", "modB"]);
            assert_eq!(f.message, "Failed to mount Magic Mount modules [modA, modB]: bind: denied");
        }
        _ => panic!("expected a module failure"),
    }
}

#[test]
fn module_walk_visits_breadth_first() {
    let mut ctx = PlannerContext::new(false, false, managed());
    let rules = ModuleRules { default_mode: MountMode::Overlay, paths: vec![("system/bin/x".to_string(), MountMode::Magic)] };
    let root = ProcessingItem {
        module_source: "/modA/system".to_string(),
        system_target: "/system".to_string(),
        relative_path: "system".to_string(),
        partition_label: "system".to_string(),
    };
    let mut walk = ModuleWalk::new(vec![root]);
    let listing = DirListing {
        child_dirs: vec![
            ("bin".to_string(), "/modA/system/bin".to_string()),
            ("etc".to_string(), "/modA/system/etc".to_string()),
        ],
        has_non_dir_entries: false,
    };
    walk.visit(&mut ctx, &rules, Some(listing), true, "/system".to_string());
    assert_eq!(walk.pending.len(), 2);
    assert_eq!(walk.next_item().unwrap().system_target, "/system/bin");
    let listing = DirListing {
        child_dirs: vec![("x".to_string(), "/modA/system/bin/x".to_string())],
        has_non_dir_entries: true,
    };
    walk.visit(&mut ctx, &rules, Some(listing), true, "/system/bin".to_string());
    assert_eq!(walk.pending.len(), 2);
    assert_eq!(walk.pending[0].system_target, "/system/etc");
    assert_eq!(walk.pending[1].system_target, "/system/bin/x");
    assert!(!walk.presence.magic);
}

#[test]
fn layers_rank_a_repeated_module_by_its_last_place() {
    let ids = vec!["modA".to_string(), "modB".to_string(), "modA".to_string()];
    let layers = vec!["/modA/system".to_string(), "/modB/system".to_string()];
    assert_eq!(sort_layers(&layers, &ids), vec!["/modB/system", "/modA/system"]);
}

#[test]
fn gathered_groups_are_in_target_order() {
    let mut ctx = PlannerContext::new(false, false, managed());
    ctx.queue_overlay("/system/bin".to_string(), "system", "/modA/bin".to_string());
    ctx.queue_overlay("/system/app".to_string(), "system", "/modA/app".to_string());
    let mut groups = ctx.into_overlay_groups();
    assert!(groups_in_target_order(&groups));
    groups.swap(0, 1);
    assert!(!groups_in_target_order(&groups));
}
