use hybrid_mount::engine::hide_rules::{add_user_hide_rule, remove_user_hide_rule};

#[test]
fn hide_rule_is_added_once() {
    let mut rules = vec!["/system/bin/su".to_string()];
    assert!(add_user_hide_rule(&mut rules, "/system/xbin/su"));
    assert!(!add_user_hide_rule(&mut rules, "/system/xbin//su/"));
    assert_eq!(rules, vec!["/system/bin/su", "/system/xbin/su"]);
}

#[test]
fn hide_rule_removal_drops_every_spelling() {
    let mut rules = vec![
        "/system/bin/su".to_string(),
        "/data/x".to_string(),
        "/system//bin/su".to_string(),
    ];
    assert!(remove_user_hide_rule(&mut rules, "/system/bin/su"));
    assert_eq!(rules, vec!["/data/x"]);
    assert!(!remove_user_hide_rule(&mut rules, "/system/bin/su"));
    assert_eq!(rules, vec!["/data/x"]);
}
