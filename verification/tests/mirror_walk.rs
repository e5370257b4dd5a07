use hybrid_mount::domain::{ModuleRules, MountMode};
use hybrid_mount::engine::hymofs::{CompileStep, CompiledRules, EntryKind, DT_REG};
use hybrid_mount::engine::mirror_walk::{partition_roots_to_walk, CompileWalk};

fn strings(v: &[&str]) -> Vec<String> {
    v.iter().map(|s| s.to_string()).collect()
}

#[test]
fn partition_roots_are_walked_once_each() {
    let roots = strings(&["/m/a/odm", "/m/a/product", "/m/a/system", "/m/a/vendor"]);
    let canonical = strings(&["/m/a/odm", "/m/a/system/product", "/m/a/system", "/m/a/system/product"]);
    let r = partition_roots_to_walk(&roots, &vec![false, true, true, true], &canonical);
    assert_eq!(r, vec![1, 2]);
}

#[test]
fn mirror_walk_merges_existing_dirs_and_adds_files() {
    let rules = ModuleRules { default_mode: MountMode::Hymofs, paths: vec![] };
    let mut compiled = CompiledRules::new();
    let mut walk = CompileWalk::new("/mirror/a/system", "system", &strings(&["etc", "bin"]));

    let next = walk.next_item().unwrap();
    assert_eq!(next.relative, "system/bin");
    let step = walk.visit(
        &mut compiled, &rules, "/", &vec![true, true], EntryKind::Dir, 0, false, false, &strings(&["tool"]),
    );
    assert_eq!(step, CompileStep::Skip);

    let next = walk.next_item().unwrap();
    assert_eq!(next.path, "/mirror/a/system/bin/tool");
    let step = walk.visit(
        &mut compiled, &rules, "/", &vec![false, true, true], EntryKind::File, 0, false, false, &vec![],
    );
    assert_eq!(step, CompileStep::Add(DT_REG));

    let next = walk.next_item().unwrap();
    assert_eq!(next.path, "/mirror/a/system/etc");
    assert_eq!(next.relative, "system/etc");
    // `/system/etc` exists: its parent `/system` does.
    let step = walk.visit(
        &mut compiled, &rules, "/", &vec![true, true], EntryKind::Dir, 0, true, true, &strings(&["hosts"]),
    );
    assert_eq!(step, CompileStep::Merge);
    assert!(walk.next_item().is_none());

    assert_eq!(compiled.merge_rules.len(), 1);
    assert_eq!(compiled.merge_rules[0].target, "/system/etc");
    assert_eq!(compiled.merge_rules[0].source, "/mirror/a/system/etc");
    assert_eq!(compiled.add_rules.len(), 1);
    assert_eq!(compiled.add_rules[0].target, "/system/bin/tool");
    assert_eq!(compiled.add_rules[0].source, "/mirror/a/system/bin/tool");
    assert!(compiled.hide_rules.is_empty());
}

#[test]
fn compile_rules_do_not_merge_partition_root() {
    // Mirror `/m` holds `mod_a/system/{bin/sh, etc/hosts}`; the system root
    // `/r` has `system/bin` and `system/etc`; the host has neither.
    let rules = ModuleRules { default_mode: MountMode::Hymofs, paths: vec![] };
    let roots = strings(&["/m/mod_a/system"]);
    assert_eq!(partition_roots_to_walk(&roots, &vec![true], &roots), vec![0]);
    let mut compiled = CompiledRules::new();
    let mut walk = CompileWalk::new("/m/mod_a/system", "system", &strings(&["etc", "bin"]));
    let listings = [("system/bin", "sh"), ("system/etc", "hosts")];
    for (dir, file) in listings {
        assert_eq!(walk.next_item().unwrap().relative, dir);
        // Under `/r`, `/r/system` exists; the host target is no directory.
        let step = walk.visit(
            &mut compiled, &rules, "/r", &vec![true, true], EntryKind::Dir, 0, false, false, &strings(&[file]),
        );
        assert_eq!(step, CompileStep::Skip);
        let step = walk.visit(
            &mut compiled, &rules, "/r", &vec![true, true, true], EntryKind::File, 0, false, false, &vec![],
        );
        assert_eq!(step, CompileStep::Add(DT_REG));
    }
    assert!(walk.next_item().is_none());
    assert!(compiled.merge_rules.is_empty());
    assert!(compiled.hide_rules.is_empty());
    let targets: Vec<&str> = compiled.add_rules.iter().map(|r| r.target.as_str()).collect();
    assert_eq!(targets, vec!["/system/bin/sh", "/system/etc/hosts"]);
    let sources: Vec<&str> = compiled.add_rules.iter().map(|r| r.source.as_str()).collect();
    assert_eq!(sources, vec!["/m/mod_a/system/bin/sh", "/m/mod_a/system/etc/hosts"]);
}
