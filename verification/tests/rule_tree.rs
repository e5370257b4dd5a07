use hybrid_mount::engine::hymofs::{CompiledRules, HymofsTreeFileType, DT_REG};
use hybrid_mount::engine::plan::{HymofsAddRule, HymofsMergeRule};
use hybrid_mount::engine::rule_tree::{
    extract_module_id_from_source, render_compiled_tree, tree_parts_exec, RuleTree,
};

fn parts(p: &str) -> Vec<Vec<char>> {
    tree_parts_exec(p)
}

#[test]
fn compiled_tree_dump_includes_actions_sources_and_modules() {
    let compiled = CompiledRules {
        add_rules: vec![HymofsAddRule {
            target: "/system/bin/sh".to_string(),
            source: "/dev/hymo_mirror/mod_a/system/bin/sh".to_string(),
            file_type: DT_REG,
        }],
        merge_rules: vec![HymofsMergeRule {
            target: "/system/etc".to_string(),
            source: "/dev/hymo_mirror/mod_b/system/etc".to_string(),
        }],
        hide_rules: vec!["/system/xbin/su".to_string()],
    };

    let dump = render_compiled_tree(
        &compiled,
        "/dev/hymo_mirror",
        &vec!["/system/bin/adbd".to_string()],
    )
    .expect("tree dump should be present");

    assert!(dump.contains("/ (Root)"));
    assert!(dump.contains("etc (Directory) [MERGE] [modules=mod_b]"));
    assert!(dump.contains("sh (RegularFile) [ADD] [modules=mod_a]"));
    assert!(dump.contains("su (Hidden) [HIDE]"));
    assert!(dump.contains("adbd (Hidden) [USER_HIDE]"));
    assert!(dump.contains("/dev/hymo_mirror/mod_a/system/bin/sh"));
}

#[test]
fn compiled_tree_dump_is_absent_without_rules() {
    let compiled = CompiledRules {
        add_rules: vec![],
        merge_rules: vec![],
        hide_rules: vec![],
    };
    assert!(render_compiled_tree(&compiled, "/dev/hymo_mirror", &vec![]).is_none());
}

#[test]
fn compiled_tree_dump_lists_nodes_depth_first_in_name_order() {
    let compiled = CompiledRules {
        add_rules: vec![],
        merge_rules: vec![],
        hide_rules: vec!["/system/xbin/su".to_string(), "/system/bin/a".to_string()],
    };
    let dump = render_compiled_tree(&compiled, "/dev/hymo_mirror", &vec![]).unwrap();
    assert_eq!(
        dump,
        "/ (Root)\n  system (Directory)\n    bin (Directory)\n      a (Hidden) [HIDE]\n    xbin (Directory)\n      su (Hidden) [HIDE]\n"
    );
}

#[test]
fn rule_tree_leaf_with_children_stays_directory() {
    let mut t = RuleTree::new_root();
    t.insert_rule(&parts("/system/etc/hosts"), HymofsTreeFileType::RegularFile, "ADD", Some("/m/a/hosts"), Some("a"));
    t.insert_rule(&parts("/system/etc"), HymofsTreeFileType::Hidden, "HIDE", None, None);
    t.insert_rule(&parts("/system/etc/hosts"), HymofsTreeFileType::RegularFile, "ADD", Some("/m//a/hosts"), Some("b"));
    let text = t.render();
    assert_eq!(
        text,
        "/ (Root)\n  system (Directory)\n    etc (Directory) [HIDE]\n      hosts (RegularFile) [ADD] [modules=a,b] [sources=/m/a/hosts]\n"
    );
}

#[test]
fn rule_tree_root_rule_keeps_root_kind() {
    let mut t = RuleTree::new_root();
    t.insert_rule(&parts("/"), HymofsTreeFileType::Hidden, "USER_HIDE", None, None);
    assert_eq!(t.render(), "/ (Root) [USER_HIDE]\n");
}

#[test]
fn tree_parts_skip_parent_references() {
    let p = parts("/system/../vendor/./lib");
    let names: Vec<String> = p.iter().map(|c| c.iter().collect()).collect();
    assert_eq!(names, vec!["system", "vendor", "lib"]);
}

#[test]
fn module_id_comes_from_modules_dir_or_mirror() {
    assert_eq!(
        extract_module_id_from_source("/data/adb/modules/mod_x/system/bin/sh", "/dev/hymo_mirror"),
        Some("mod_x".to_string())
    );
    assert_eq!(
        extract_module_id_from_source("/dev/hymo_mirror//mod_y/system", "/dev/hymo_mirror/"),
        Some("mod_y".to_string())
    );
    assert_eq!(extract_module_id_from_source("/elsewhere/mod_z", "/dev/hymo_mirror"), None);
    assert_eq!(extract_module_id_from_source("/dev/hymo_mirror", "/dev/hymo_mirror"), None);
}
