//! The configuration edits behind the command-line settings: each command
//! changes one part of the configuration and names what it changed; the
//! caller saves the file and applies it live when HymoFS can operate.
use vstd::prelude::*;

use crate::conf::schema::{
    Config, HymoFsConfig, HymoKstatRuleConfig, HymoMapsRuleConfig, HymoMountHideConfig,
    HymoStatfsSpoofConfig, HymoUnameConfig,
};
use crate::engine::hymofs::{EntryKind, DT_LNK, DT_REG};
use crate::paths::{path_parts, same_parts, same_path};
use crate::text::concat_str;
use vstd::string::StringSliceAdditionalSpecFns;
use vstd::utf8::is_char_boundary;

verus! {

/// What a command changed: the live operation it maps to and the label of
/// the setting in messages.
#[derive(Debug, Clone, Copy)]
pub struct SettingChange {
    pub operation: &'static str,
    pub label: &'static str,
}

/// `h` with only `enabled` changed.
pub fn handle_hymofs_set_enabled(config: &mut Config, enabled: bool) -> (r: SettingChange)
    ensures
        *final(config) == (Config { hymofs: HymoFsConfig { enabled, ..old(config).hymofs }, ..*old(config) }),
        r.operation@ == "set_enabled"@,
        r.label@ == (if enabled { "HymoFS enabled state"@ } else { "HymoFS disabled state"@ }),
{
    config.hymofs.enabled = enabled;
    SettingChange {
        operation: "set_enabled",
        label: if enabled {
            "HymoFS enabled state"
        } else {
            "HymoFS disabled state"
        },
    }
}

pub fn handle_hymofs_set_hidexattr(config: &mut Config, enabled: bool) -> (r: SettingChange)
    ensures
        *final(config) == (Config { hymofs: HymoFsConfig { enable_hidexattr: enabled, ..old(config).hymofs }, ..*old(config) }),
        r.operation@ == "set_hidexattr"@,
        r.label@ == "HymoFS hidexattr setting"@,
{
    config.hymofs.enable_hidexattr = enabled;
    SettingChange { operation: "set_hidexattr", label: "HymoFS hidexattr setting" }
}

pub fn handle_hymofs_set_mirror(config: &mut Config, path_value: &str) -> (r: SettingChange)
    ensures
        final(config).hymofs.mirror_path@ == path_value@,
        *final(config) == (Config { hymofs: HymoFsConfig { mirror_path: final(config).hymofs.mirror_path, ..old(config).hymofs }, ..*old(config) }),
        r.operation@ == "set_mirror_path"@,
        r.label@ == "HymoFS mirror path"@,
{
    config.hymofs.mirror_path = String::from_str(path_value);
    SettingChange { operation: "set_mirror_path", label: "HymoFS mirror path" }
}

pub fn handle_hymofs_set_debug(config: &mut Config, enabled: bool) -> (r: SettingChange)
    ensures
        *final(config) == (Config { hymofs: HymoFsConfig { enable_kernel_debug: enabled, ..old(config).hymofs }, ..*old(config) }),
        r.operation@ == "set_debug"@,
        r.label@ == "HymoFS kernel debug setting"@,
{
    config.hymofs.enable_kernel_debug = enabled;
    SettingChange { operation: "set_debug", label: "HymoFS kernel debug setting" }
}

pub fn handle_hymofs_set_stealth(config: &mut Config, enabled: bool) -> (r: SettingChange)
    ensures
        *final(config) == (Config { hymofs: HymoFsConfig { enable_stealth: enabled, ..old(config).hymofs }, ..*old(config) }),
        r.operation@ == "set_stealth"@,
        r.label@ == "HymoFS stealth setting"@,
{
    config.hymofs.enable_stealth = enabled;
    SettingChange { operation: "set_stealth", label: "HymoFS stealth setting" }
}

/// Mount hiding on or off; turning it on keeps or replaces the pattern,
/// turning it off clears it.
pub fn handle_hymofs_set_mount_hide(config: &mut Config, enabled: bool, path_pattern: Option<&str>) -> (r: SettingChange)
    ensures
        *final(config) == (Config {
            hymofs: HymoFsConfig {
                enable_mount_hide: enabled,
                mount_hide: HymoMountHideConfig { enabled, path_pattern: final(config).hymofs.mount_hide.path_pattern },
                ..old(config).hymofs
            },
            ..*old(config)
        }),
        final(config).hymofs.mount_hide.path_pattern@ == (if !enabled {
            Seq::<char>::empty()
        } else {
            match path_pattern {
                Some(p) => p@,
                None => old(config).hymofs.mount_hide.path_pattern@,
            }
        }),
        r.operation@ == "set_mount_hide"@,
        r.label@ == "HymoFS mount_hide setting"@,
{
    config.hymofs.enable_mount_hide = enabled;
    config.hymofs.mount_hide.enabled = enabled;
    if enabled {
        match path_pattern {
            Some(p) => {
                config.hymofs.mount_hide.path_pattern = String::from_str(p);
            },
            None => {},
        }
    } else {
        config.hymofs.mount_hide.path_pattern = String::new();
    }
    SettingChange { operation: "set_mount_hide", label: "HymoFS mount_hide setting" }
}

pub fn handle_hymofs_set_maps_spoof(config: &mut Config, enabled: bool) -> (r: SettingChange)
    ensures
        *final(config) == (Config { hymofs: HymoFsConfig { enable_maps_spoof: enabled, ..old(config).hymofs }, ..*old(config) }),
        r.operation@ == "set_maps_spoof"@,
        r.label@ == "HymoFS maps_spoof setting"@,
{
    config.hymofs.enable_maps_spoof = enabled;
    SettingChange { operation: "set_maps_spoof", label: "HymoFS maps_spoof setting" }
}

/// Statfs spoofing on or off; turning it on keeps or replaces the path and
/// type, turning it off clears both.
#[verifier::rlimit(40)]
pub fn handle_hymofs_set_statfs_spoof(
    config: &mut Config,
    enabled: bool,
    path_value: Option<&str>,
    spoof_f_type: Option<u64>,
) -> (r: SettingChange)
    ensures
        *final(config) == (Config {
            hymofs: HymoFsConfig {
                enable_statfs_spoof: enabled,
                statfs_spoof: HymoStatfsSpoofConfig {
                    enabled,
                    path: final(config).hymofs.statfs_spoof.path,
                    spoof_f_type: final(config).hymofs.statfs_spoof.spoof_f_type,
                },
                ..old(config).hymofs
            },
            ..*old(config)
        }),
        final(config).hymofs.statfs_spoof.path@ == (if !enabled {
            Seq::<char>::empty()
        } else {
            match path_value {
                Some(p) => p@,
                None => old(config).hymofs.statfs_spoof.path@,
            }
        }),
        final(config).hymofs.statfs_spoof.spoof_f_type == (if !enabled {
            0
        } else {
            match spoof_f_type {
                Some(t) => t,
                None => old(config).hymofs.statfs_spoof.spoof_f_type,
            }
        }),
        r.operation@ == "set_statfs_spoof"@,
        r.label@ == "HymoFS statfs_spoof setting"@,
{
    config.hymofs.enable_statfs_spoof = enabled;
    config.hymofs.statfs_spoof.enabled = enabled;
    if enabled {
        match path_value {
            Some(p) => {
                config.hymofs.statfs_spoof.path = String::from_str(p);
            },
            None => {},
        }
        match spoof_f_type {
            Some(t) => {
                config.hymofs.statfs_spoof.spoof_f_type = t;
            },
            None => {},
        }
    } else {
        config.hymofs.statfs_spoof.path = String::new();
        config.hymofs.statfs_spoof.spoof_f_type = 0;
    }
    SettingChange { operation: "set_statfs_spoof", label: "HymoFS statfs_spoof setting" }
}

pub open spec fn opt_or(o: Option<&str>, keep: Seq<char>) -> Seq<char> {
    match o {
        Some(v) => v@,
        None => keep,
    }
}

pub open spec fn no_uname_field_msg() -> Seq<char> {
    "No uname fields were provided. Use `hymofs uname clear` to clear spoofing."@
}

fn set_if_given(field: &mut String, value: Option<&str>)
    ensures
        final(field)@ == opt_or(value, old(field)@),
{
    match value {
        Some(v) => {
            *field = String::from_str(v);
        },
        None => {},
    }
}

/// Sets the given `uname` fields; at least one must be given.
pub fn handle_hymofs_set_uname(
    config: &mut Config,
    sysname: Option<&str>,
    nodename: Option<&str>,
    release: Option<&str>,
    version: Option<&str>,
    machine: Option<&str>,
    domainname: Option<&str>,
) -> (r: Result<SettingChange, String>)
    ensures
        (sysname is None && nodename is None && release is None && version is None
            && machine is None && domainname is None) <==> r is Err,
        r matches Err(m) ==> m@ == no_uname_field_msg() && *final(config) == *old(config),
        r matches Ok(c) ==> {
            &&& c.operation@ == "set_uname"@
            &&& c.label@ == "HymoFS uname spoof setting"@
            &&& *final(config) == (Config {
                hymofs: HymoFsConfig { uname: final(config).hymofs.uname, ..old(config).hymofs },
                ..*old(config)
            })
            &&& final(config).hymofs.uname.sysname@ == opt_or(sysname, old(config).hymofs.uname.sysname@)
            &&& final(config).hymofs.uname.nodename@ == opt_or(nodename, old(config).hymofs.uname.nodename@)
            &&& final(config).hymofs.uname.release@ == opt_or(release, old(config).hymofs.uname.release@)
            &&& final(config).hymofs.uname.version@ == opt_or(version, old(config).hymofs.uname.version@)
            &&& final(config).hymofs.uname.machine@ == opt_or(machine, old(config).hymofs.uname.machine@)
            &&& final(config).hymofs.uname.domainname@ == opt_or(domainname, old(config).hymofs.uname.domainname@)
        },
{
    if sysname.is_none() && nodename.is_none() && release.is_none() && version.is_none()
        && machine.is_none() && domainname.is_none() {
        return Err(String::from_str("No uname fields were provided. Use `hymofs uname clear` to clear spoofing."));
    }
    set_if_given(&mut config.hymofs.uname.sysname, sysname);
    set_if_given(&mut config.hymofs.uname.nodename, nodename);
    set_if_given(&mut config.hymofs.uname.release, release);
    set_if_given(&mut config.hymofs.uname.version, version);
    set_if_given(&mut config.hymofs.uname.machine, machine);
    set_if_given(&mut config.hymofs.uname.domainname, domainname);
    Ok(SettingChange { operation: "set_uname", label: "HymoFS uname spoof setting" })
}

pub fn handle_hymofs_clear_uname(config: &mut Config) -> (r: SettingChange)
    ensures
        final(config).hymofs.uname.is_blank(),
        *final(config) == (Config {
            hymofs: HymoFsConfig { uname: final(config).hymofs.uname, ..old(config).hymofs },
            ..*old(config)
        }),
        r.operation@ == "clear_uname"@,
        r.label@ == "HymoFS uname spoof setting"@,
{
    config.hymofs.uname = HymoUnameConfig::default();
    SettingChange { operation: "clear_uname", label: "HymoFS uname spoof setting" }
}

pub fn handle_hymofs_set_cmdline(config: &mut Config, value: &str) -> (r: SettingChange)
    ensures
        final(config).hymofs.cmdline_value@ == value@,
        *final(config) == (Config {
            hymofs: HymoFsConfig { cmdline_value: final(config).hymofs.cmdline_value, ..old(config).hymofs },
            ..*old(config)
        }),
        r.operation@ == "set_cmdline"@,
        r.label@ == "HymoFS cmdline spoof setting"@,
{
    config.hymofs.cmdline_value = String::from_str(value);
    SettingChange { operation: "set_cmdline", label: "HymoFS cmdline spoof setting" }
}

pub fn handle_hymofs_clear_cmdline(config: &mut Config) -> (r: SettingChange)
    ensures
        final(config).hymofs.cmdline_value@.len() == 0,
        *final(config) == (Config {
            hymofs: HymoFsConfig { cmdline_value: final(config).hymofs.cmdline_value, ..old(config).hymofs },
            ..*old(config)
        }),
        r.operation@ == "clear_cmdline"@,
        r.label@ == "HymoFS cmdline spoof setting"@,
{
    config.hymofs.cmdline_value = String::new();
    SettingChange { operation: "clear_cmdline", label: "HymoFS cmdline spoof setting" }
}

pub fn handle_hymofs_set_hide_uids(config: &mut Config, uids: &Vec<u32>) -> (r: SettingChange)
    ensures
        final(config).hymofs.hide_uids@ == uids@,
        *final(config) == (Config {
            hymofs: HymoFsConfig { hide_uids: final(config).hymofs.hide_uids, ..old(config).hymofs },
            ..*old(config)
        }),
        r.operation@ == "set_hide_uids"@,
        r.label@ == "HymoFS hide_uids setting"@,
{
    config.hymofs.hide_uids = uids.clone();
    SettingChange { operation: "set_hide_uids", label: "HymoFS hide_uids setting" }
}

pub fn handle_hymofs_clear_hide_uids(config: &mut Config) -> (r: SettingChange)
    ensures
        final(config).hymofs.hide_uids@.len() == 0,
        *final(config) == (Config {
            hymofs: HymoFsConfig { hide_uids: final(config).hymofs.hide_uids, ..old(config).hymofs },
            ..*old(config)
        }),
        r.operation@ == "clear_hide_uids"@,
        r.label@ == "HymoFS hide_uids setting"@,
{
    config.hymofs.hide_uids = Vec::new();
    SettingChange { operation: "clear_hide_uids", label: "HymoFS hide_uids setting" }
}

/// The index of the first maps rule for this inode and device.
pub open spec fn maps_rule_index(rules: Seq<HymoMapsRuleConfig>, ino: u64, dev: u64) -> Option<int> {
    if exists|i: int| 0 <= i < rules.len() && rules[i].target_ino == ino && rules[i].target_dev == dev {
        Some(choose|i: int| 0 <= i < rules.len() && rules[i].target_ino == ino && rules[i].target_dev == dev
            && forall|j: int| 0 <= j < i ==> !(rules[j].target_ino == ino && rules[j].target_dev == dev))
    } else {
        None
    }
}

/// `new` is `old` with the maps rule for this inode and device added: the
/// first rule for them replaced, or one appended when there is none; the
/// rest of the configuration unchanged.
pub open spec fn maps_rule_added(
    old: Config,
    new: Config,
    target_ino: u64,
    target_dev: u64,
    spoofed_ino: u64,
    spoofed_dev: u64,
    path: Seq<char>,
) -> bool {
    let old_rules = old.hymofs.maps_rules@;
    let new_rules = new.hymofs.maps_rules@;
    let k = match maps_rule_index(old_rules, target_ino, target_dev) {
        Some(i) => i,
        None => old_rules.len() as int,
    };
    &&& new == (Config { hymofs: HymoFsConfig { maps_rules: new.hymofs.maps_rules, ..old.hymofs }, ..old })
    &&& match maps_rule_index(old_rules, target_ino, target_dev) {
        Some(i) => new_rules.len() == old_rules.len() && (forall|j: int|
            0 <= j < old_rules.len() && j != i ==> new_rules[j] == old_rules[j]),
        None => new_rules.len() == old_rules.len() + 1 && new_rules.drop_last() == old_rules,
    }
    &&& new_rules[k].target_ino == target_ino
    &&& new_rules[k].target_dev == target_dev
    &&& new_rules[k].spoofed_ino == spoofed_ino
    &&& new_rules[k].spoofed_dev == spoofed_dev
    &&& new_rules[k].spoofed_pathname@ == path
}

/// The two maps rules hold the same values.
pub open spec fn same_maps_rule(a: HymoMapsRuleConfig, b: HymoMapsRuleConfig) -> bool {
    &&& a.target_ino == b.target_ino
    &&& a.target_dev == b.target_dev
    &&& a.spoofed_ino == b.spoofed_ino
    &&& a.spoofed_dev == b.spoofed_dev
    &&& a.spoofed_pathname@ == b.spoofed_pathname@
}

/// Repeating `handle_hymofs_add_maps_rule` with the same arguments changes
/// nothing: after the second call the configuration is the one the first
/// call left, with the same number of maps rules and each rule holding the
/// same values (the spoofed path by its text); the second call only
/// rewrites the rule the first one added or replaced.
pub proof fn lemma_add_maps_rule_idempotent(
    c0: Config,
    c1: Config,
    c2: Config,
    target_ino: u64,
    target_dev: u64,
    spoofed_ino: u64,
    spoofed_dev: u64,
    path: Seq<char>,
)
    requires
        maps_rule_added(c0, c1, target_ino, target_dev, spoofed_ino, spoofed_dev, path),
        maps_rule_added(c1, c2, target_ino, target_dev, spoofed_ino, spoofed_dev, path),
    ensures
        c2 == (Config { hymofs: HymoFsConfig { maps_rules: c2.hymofs.maps_rules, ..c1.hymofs }, ..c1 }),
        c2.hymofs.maps_rules@.len() == c1.hymofs.maps_rules@.len(),
        forall|j: int|
            0 <= j < c1.hymofs.maps_rules@.len() ==> same_maps_rule(
                #[trigger] c2.hymofs.maps_rules@[j],
                c1.hymofs.maps_rules@[j],
            ),
{
    let r0 = c0.hymofs.maps_rules@;
    let r1 = c1.hymofs.maps_rules@;
    let r2 = c2.hymofs.maps_rules@;
    lemma_maps_rule_index(r0, target_ino, target_dev);
    let k = match maps_rule_index(r0, target_ino, target_dev) {
        Some(i) => i,
        None => r0.len() as int,
    };
    assert(0 <= k < r1.len());
    assert forall|j: int| 0 <= j < k implies !(#[trigger] r1[j].target_ino == target_ino && r1[j].target_dev == target_dev) by {
        if maps_rule_index(r0, target_ino, target_dev) is None {
            assert(r1.drop_last()[j] == r0[j]);
        } else {
            assert(r1[j] == r0[j]);
        }
    }
    lemma_first_match(r1, target_ino, target_dev, k);
    assert forall|j: int| 0 <= j < r1.len() implies same_maps_rule(#[trigger] r2[j], r1[j]) by {
        if j != k {
            assert(r2[j] == r1[j]);
        }
    }
}

proof fn lemma_maps_rule_index(rules: Seq<HymoMapsRuleConfig>, ino: u64, dev: u64)
    ensures
        maps_rule_index(rules, ino, dev) matches Some(i) ==> {
            &&& 0 <= i < rules.len()
            &&& rules[i].target_ino == ino && rules[i].target_dev == dev
            &&& forall|j: int| 0 <= j < i ==> !(#[trigger] rules[j].target_ino == ino && rules[j].target_dev == dev)
        },
{
    if exists|i: int| 0 <= i < rules.len() && rules[i].target_ino == ino && rules[i].target_dev == dev {
        let i = choose|i: int| 0 <= i < rules.len() && rules[i].target_ino == ino && rules[i].target_dev == dev;
        lemma_first_match_exists(rules, ino, dev, i);
    }
}

proof fn lemma_first_match_exists(rules: Seq<HymoMapsRuleConfig>, ino: u64, dev: u64, i: int)
    requires
        0 <= i < rules.len(),
        rules[i].target_ino == ino && rules[i].target_dev == dev,
    ensures
        exists|c: int| 0 <= c < rules.len() && rules[c].target_ino == ino && rules[c].target_dev == dev
            && forall|j: int| 0 <= j < c ==> !(rules[j].target_ino == ino && rules[j].target_dev == dev),
    decreases i,
{
    if exists|j: int| 0 <= j < i && rules[j].target_ino == ino && rules[j].target_dev == dev {
        let j = choose|j: int| 0 <= j < i && rules[j].target_ino == ino && rules[j].target_dev == dev;
        lemma_first_match_exists(rules, ino, dev, j);
    } else {
        assert(forall|j: int| 0 <= j < i ==> !(rules[j].target_ino == ino && rules[j].target_dev == dev));
    }
}

proof fn lemma_first_match(rules: Seq<HymoMapsRuleConfig>, ino: u64, dev: u64, k: int)
    requires
        0 <= k < rules.len(),
        rules[k].target_ino == ino && rules[k].target_dev == dev,
        forall|j: int| 0 <= j < k ==> !(#[trigger] rules[j].target_ino == ino && rules[j].target_dev == dev),
    ensures
        maps_rule_index(rules, ino, dev) == Some(k),
{
    lemma_maps_rule_index(rules, ino, dev);
    let c = maps_rule_index(rules, ino, dev)->0;
    if c < k {
        assert(!(rules[c].target_ino == ino && rules[c].target_dev == dev));
    } else if c > k {
        assert(!(rules[k].target_ino == ino && rules[k].target_dev == dev));
    }
}

/// Adds a maps rule, replacing the first one for the same inode and device.
pub fn handle_hymofs_add_maps_rule(
    config: &mut Config,
    target_ino: u64,
    target_dev: u64,
    spoofed_ino: u64,
    spoofed_dev: u64,
    path: &str,
) -> (r: SettingChange)
    ensures
        maps_rule_added(*old(config), *final(config), target_ino, target_dev, spoofed_ino, spoofed_dev, path@),
        r.operation@ == "add_maps_rule"@,
        r.label@ == "HymoFS maps rule"@,
{
    let new_rule = HymoMapsRuleConfig {
        target_ino,
        target_dev,
        spoofed_ino,
        spoofed_dev,
        spoofed_pathname: String::from_str(path),
    };
    let ghost old_rules = config.hymofs.maps_rules@;
    let mut i: usize = 0;
    while i < config.hymofs.maps_rules.len()
        invariant
            i <= old_rules.len(),
            *config == *old(config),
            config.hymofs.maps_rules@ == old_rules,
            new_rule.target_ino == target_ino && new_rule.target_dev == target_dev,
            new_rule.spoofed_ino == spoofed_ino && new_rule.spoofed_dev == spoofed_dev,
            new_rule.spoofed_pathname@ == path@,
            forall|j: int| 0 <= j < i ==> !(old_rules[j].target_ino == target_ino && old_rules[j].target_dev == target_dev),
        decreases old_rules.len() - i,
    {
        if config.hymofs.maps_rules[i].target_ino == target_ino && config.hymofs.maps_rules[i].target_dev == target_dev {
            proof {
                assert(old_rules[i as int].target_ino == target_ino && old_rules[i as int].target_dev == target_dev);
                let c = choose|c: int| 0 <= c < old_rules.len() && old_rules[c].target_ino == target_ino && old_rules[c].target_dev == target_dev
                    && forall|j: int| 0 <= j < c ==> !(old_rules[j].target_ino == target_ino && old_rules[j].target_dev == target_dev);
                assert(c == i);
                assert(maps_rule_index(old_rules, target_ino, target_dev) == Some(i as int));
            }
            let ghost nr = new_rule;
            config.hymofs.maps_rules.set(i, new_rule);
            assert(config.hymofs.maps_rules@[i as int] == nr);
            return SettingChange { operation: "add_maps_rule", label: "HymoFS maps rule" };
        }
        i = i + 1;
    }
    config.hymofs.maps_rules.push(new_rule);
    assert(config.hymofs.maps_rules@.drop_last() =~= old_rules);
    SettingChange { operation: "add_maps_rule", label: "HymoFS maps rule" }
}

pub fn handle_hymofs_clear_maps_rules(config: &mut Config) -> (r: SettingChange)
    ensures
        final(config).hymofs.maps_rules@.len() == 0,
        *final(config) == (Config {
            hymofs: HymoFsConfig { maps_rules: final(config).hymofs.maps_rules, ..old(config).hymofs },
            ..*old(config)
        }),
        r.operation@ == "clear_maps_rules"@,
        r.label@ == "HymoFS maps rules"@,
{
    config.hymofs.maps_rules = Vec::new();
    SettingChange { operation: "clear_maps_rules", label: "HymoFS maps rules" }
}

/// The index of the first `stat` rule for this inode and path (paths
/// compared as `Path`s).
pub open spec fn kstat_rule_index(rules: Seq<HymoKstatRuleConfig>, ino: u64, path: Seq<char>) -> Option<int> {
    if exists|i: int| 0 <= i < rules.len() && rules[i].target_ino == ino && same_path(rules[i].target_pathname@, path) {
        Some(choose|i: int| 0 <= i < rules.len() && rules[i].target_ino == ino && same_path(rules[i].target_pathname@, path)
            && forall|j: int| 0 <= j < i ==> !(rules[j].target_ino == ino && same_path(rules[j].target_pathname@, path)))
    } else {
        None
    }
}

/// Adds a `stat` rule, replacing the first one for the same inode and path.
pub fn handle_hymofs_upsert_kstat_rule(config: &mut Config, rule: HymoKstatRuleConfig) -> (r: SettingChange)
    ensures
        *final(config) == (Config {
            hymofs: HymoFsConfig { kstat_rules: final(config).hymofs.kstat_rules, ..old(config).hymofs },
            ..*old(config)
        }),
        ({
            let old_rules = old(config).hymofs.kstat_rules@;
            let new_rules = final(config).hymofs.kstat_rules@;
            match kstat_rule_index(old_rules, rule.target_ino, rule.target_pathname@) {
                Some(i) => new_rules == old_rules.update(i, rule),
                None => new_rules == old_rules.push(rule),
            }
        }),
        r.operation@ == "upsert_kstat_rule"@,
        r.label@ == "HymoFS kstat rule"@,
{
    let ghost old_rules = config.hymofs.kstat_rules@;
    let key = path_parts(rule.target_pathname.as_str());
    let mut i: usize = 0;
    while i < config.hymofs.kstat_rules.len()
        invariant
            i <= old_rules.len(),
            *config == *old(config),
            config.hymofs.kstat_rules@ == old_rules,
            key.view_of() == crate::paths::path_view(rule.target_pathname@),
            forall|j: int| 0 <= j < i ==> !(old_rules[j].target_ino == rule.target_ino && same_path(old_rules[j].target_pathname@, rule.target_pathname@)),
        decreases old_rules.len() - i,
    {
        let here = path_parts(config.hymofs.kstat_rules[i].target_pathname.as_str());
        if config.hymofs.kstat_rules[i].target_ino == rule.target_ino && same_parts(&here, &key) {
            proof {
                let c = choose|c: int| 0 <= c < old_rules.len() && old_rules[c].target_ino == rule.target_ino && same_path(old_rules[c].target_pathname@, rule.target_pathname@)
                    && forall|j: int| 0 <= j < c ==> !(old_rules[j].target_ino == rule.target_ino && same_path(old_rules[j].target_pathname@, rule.target_pathname@));
                assert(c == i);
            }
            config.hymofs.kstat_rules.set(i, rule);
            return SettingChange { operation: "upsert_kstat_rule", label: "HymoFS kstat rule" };
        }
        i = i + 1;
    }
    config.hymofs.kstat_rules.push(rule);
    SettingChange { operation: "upsert_kstat_rule", label: "HymoFS kstat rule" }
}

pub fn handle_hymofs_set_ignore_protocol_mismatch(config: &mut Config, enabled: bool) -> (r: SettingChange)
    ensures
        *final(config) == (Config {
            hymofs: HymoFsConfig { ignore_protocol_mismatch: enabled, ..old(config).hymofs },
            ..*old(config)
        }),
        r.operation@ == "set_ignore_protocol_mismatch"@,
        r.label@ == "HymoFS protocol mismatch policy"@,
{
    config.hymofs.ignore_protocol_mismatch = enabled;
    SettingChange {
        operation: "set_ignore_protocol_mismatch",
        label: "HymoFS protocol mismatch policy",
    }
}

/// `gen-config` writes the default configuration to `output`, and refuses
/// to replace a file that is there unless forced.
pub fn handle_gen_config(output: &str, output_exists: bool, force: bool) -> (r: Result<Config, String>)
    ensures
        output_exists && !force <==> r is Err,
        r matches Err(e) ==> e@ == "Config already exists at "@ + output@ + ". Use --force to overwrite."@,
        r matches Ok(c) ==> c.is_default_except_source() && c.mountsource@ == crate::conf::schema::DEFAULT_MOUNT_SOURCE@,
{
    if output_exists && !force {
        let m = concat_str("Config already exists at ", output);
        return Err(concat_str(m.as_str(), ". Use --force to overwrite."));
    }
    Ok(Config::default())
}

/// The value of a hexadecimal digit.
pub open spec fn hex_digit(b: u8) -> Option<int> {
    if 48 <= b <= 57 {
        Some(b - 48)
    } else if 97 <= b <= 102 {
        Some(b - 87)
    } else if 65 <= b <= 70 {
        Some(b - 55)
    } else {
        None
    }
}

/// What `u8::from_str_radix` gives for a two-byte string in base 16: an
/// optional leading `+`, then digits.
pub open spec fn hex_pair(hi: u8, lo: u8) -> Option<int> {
    if hi == 43 {
        hex_digit(lo)
    } else {
        match (hex_digit(hi), hex_digit(lo)) {
            (Some(h), Some(l)) => Some(h * 16 + l),
            _ => None,
        }
    }
}

/// Every pair of bytes of `b` is a number.
pub open spec fn hex_decodable(b: Seq<u8>) -> bool {
    forall|k: int| 0 <= k < b.len() / 2 ==> (#[trigger] hex_pair(b[2 * k], b[2 * k + 1])) is Some
}

/// The bytes the pairs of `b` stand for.
pub open spec fn hex_decoded(b: Seq<u8>) -> Seq<u8> {
    Seq::new(b.len() / 2, |k: int| hex_pair(b[2 * k], b[2 * k + 1])->0 as u8)
}

/// Every pair of bytes of `s` starts on a character.
pub open spec fn pairs_on_chars(s: &str) -> bool {
    forall|i: int| 0 <= i < s.spec_bytes().len() && i % 2 == 0 ==> #[trigger] is_char_boundary(s.spec_bytes(), i)
}

fn hex_digit_exec(b: u8) -> (r: Option<u8>)
    ensures
        r matches Some(v) ==> hex_digit(b) == Some(v as int),
        r is None ==> hex_digit(b) is None,
{
    if 48 <= b && b <= 57 {
        Some(b - 48)
    } else if 97 <= b && b <= 102 {
        Some(b - 87)
    } else if 65 <= b && b <= 70 {
        Some(b - 55)
    } else {
        None
    }
}

/// The JSON bytes of a payload passed in hexadecimal; the caller parses
/// them as `what`.
pub fn decode_hex_json(payload: &str, what: &str) -> (r: Result<Vec<u8>, String>)
    requires
        payload.spec_bytes().len() % 2 == 0 ==> pairs_on_chars(payload),
    ensures
        payload.spec_bytes().len() % 2 == 1 ==> (r matches Err(e) && e@ == "Invalid hex payload length for "@ + what@),
        payload.spec_bytes().len() % 2 == 0 && hex_decodable(payload.spec_bytes()) ==> (r matches Ok(v) && v@ == hex_decoded(payload.spec_bytes())),
        payload.spec_bytes().len() % 2 == 0 && !hex_decodable(payload.spec_bytes()) ==> (r matches Err(e) && e@ == "Failed to decode hex payload for "@ + what@),
{
    let bytes = payload.as_bytes();
    let n = bytes.len();
    if n % 2 != 0 {
        return Err(concat_str("Invalid hex payload length for ", what));
    }
    let ghost b = payload.spec_bytes();
    let mut out: Vec<u8> = Vec::new();
    let mut k: usize = 0;
    while k < n / 2
        invariant
            b == bytes@,
            b == payload.spec_bytes(),
            n == b.len(),
            n % 2 == 0,
            k <= n / 2,
            out@.len() == k,
            forall|j: int| 0 <= j < k ==> (#[trigger] hex_pair(b[2 * j], b[2 * j + 1])) is Some,
            forall|j: int| 0 <= j < k ==> out@[j] == hex_pair(b[2 * j], b[2 * j + 1])->0 as u8,
        decreases n / 2 - k,
    {
        let hi = bytes[2 * k];
        let lo = bytes[2 * k + 1];
        let lo_v = hex_digit_exec(lo);
        let v: Option<u8> = if hi == 43 {
            lo_v
        } else {
            match (hex_digit_exec(hi), lo_v) {
                (Some(h), Some(l)) => Some(h * 16 + l),
                _ => None,
            }
        };
        assert(hi == b[2 * k as int] && lo == b[2 * k + 1]);
        match v {
            Some(x) => {
                assert(hex_pair(hi, lo) == Some(x as int));
                out.push(x);
            },
            None => {
                assert(hex_pair(hi, lo) is None);
                assert(!hex_decodable(b)) by {
                    assert(hex_pair(b[2 * (k as int)], b[2 * (k as int) + 1]) is None);
                }
                return Err(concat_str("Failed to decode hex payload for ", what));
            },
        }
        k = k + 1;
    }
    assert(out@ =~= hex_decoded(b));
    Ok(out)
}

/// The `d_type` of the source of an `add` rule given without one: a
/// regular file or a symbolic link; a whiteout (a character device with
/// device number 0) and any other kind are refused.
pub fn detect_rule_file_type(path: &str, kind: EntryKind, rdev: u64) -> (r: Result<i32, String>)
    ensures
        kind == EntryKind::CharDevice && rdev == 0 ==> (r matches Err(e) && e@ == "source "@ + path@ + " is a whiteout node; use `hymofs rule hide` instead"@),
        kind == EntryKind::File ==> r == Ok::<i32, String>(DT_REG),
        kind == EntryKind::Symlink ==> r == Ok::<i32, String>(DT_LNK),
        kind != EntryKind::File && kind != EntryKind::Symlink && !(kind == EntryKind::CharDevice && rdev == 0) ==> (r matches Err(e)
            && e@ == "unsupported source type for rule add: "@ + path@ + " (use `merge` or `add-dir` for directories)"@),
{
    if kind == EntryKind::CharDevice && rdev == 0 {
        let m = concat_str("source ", path);
        return Err(concat_str(m.as_str(), " is a whiteout node; use `hymofs rule hide` instead"));
    }
    match kind {
        EntryKind::File => Ok(DT_REG),
        EntryKind::Symlink => Ok(DT_LNK),
        _ => {
            let m = concat_str("unsupported source type for rule add: ", path);
            Err(concat_str(m.as_str(), " (use `merge` or `add-dir` for directories)"))
        },
    }
}

/// Turns the HymoFS kernel module's autoload on or off.
pub fn handle_lkm_set_autoload(config: &mut Config, enabled: bool)
    ensures
        *final(config) == (Config { hymofs: HymoFsConfig { lkm_autoload: enabled, ..old(config).hymofs }, ..*old(config) }),
{
    config.hymofs.lkm_autoload = enabled;
}

/// Sets the kernel module interface the HymoFS module is loaded for.
pub fn handle_lkm_set_kmi(config: &mut Config, kmi: &str)
    ensures
        final(config).hymofs.lkm_kmi_override@ == kmi@,
        *final(config) == (Config {
            hymofs: HymoFsConfig { lkm_kmi_override: final(config).hymofs.lkm_kmi_override, ..old(config).hymofs },
            ..*old(config)
        }),
{
    config.hymofs.lkm_kmi_override = String::from_str(kmi);
}

/// Clears the kernel module interface override.
pub fn handle_lkm_clear_kmi(config: &mut Config)
    ensures
        final(config).hymofs.lkm_kmi_override@.len() == 0,
        *final(config) == (Config {
            hymofs: HymoFsConfig { lkm_kmi_override: final(config).hymofs.lkm_kmi_override, ..old(config).hymofs },
            ..*old(config)
        }),
{
    config.hymofs.lkm_kmi_override = String::new();
}

/// Removes every kstat rule from the configuration.
pub fn handle_hymofs_clear_kstat_rules_config(config: &mut Config) -> (r: SettingChange)
    ensures
        final(config).hymofs.kstat_rules@.len() == 0,
        *final(config) == (Config {
            hymofs: HymoFsConfig { kstat_rules: final(config).hymofs.kstat_rules, ..old(config).hymofs },
            ..*old(config)
        }),
        r.operation@ == "clear_kstat_rules"@,
        r.label@ == "HymoFS kstat rules"@,
{
    config.hymofs.kstat_rules = Vec::new();
    SettingChange { operation: "clear_kstat_rules", label: "HymoFS kstat rules" }
}

proof fn lemma_configured_at(cfg: Config, i: int)
    requires
        crate::engine::inventory::rules_keys_distinct(cfg),
        0 <= i < cfg.rules@.len(),
    ensures
        crate::engine::inventory::configured_rules(cfg, cfg.rules@[i].0@) == Some(cfg.rules@[i].1),
{
    let id = cfg.rules@[i].0@;
    assert(0 <= i < cfg.rules@.len() && (cfg.rules@[i]).0@ == id);
    let c = choose|c: int| 0 <= c < cfg.rules@.len() && (#[trigger] cfg.rules@[c]).0@ == id;
    if c < i {
        assert((cfg.rules@[c]).0@ != (cfg.rules@[i]).0@);
    } else if c > i {
        assert((cfg.rules@[i]).0@ != (cfg.rules@[c]).0@);
    }
}

/// Stores the rules of one module in the configuration, replacing the
/// ones it had; the other modules keep theirs.
pub fn handle_save_module_rules(config: &mut Config, module_id: &str, rules: crate::domain::ModuleRules)
    requires
        crate::engine::inventory::rules_keys_distinct(*old(config)),
    ensures
        crate::engine::inventory::rules_keys_distinct(*final(config)),
        crate::engine::inventory::configured_rules(*final(config), module_id@) == Some(rules),
        forall|id: Seq<char>| id != module_id@ ==> crate::engine::inventory::configured_rules(*final(config), id)
            == crate::engine::inventory::configured_rules(*old(config), id),
        *final(config) == (Config { rules: final(config).rules, ..*old(config) }),
{
    let ghost c0 = *config;
    let mut i: usize = 0;
    while i < config.rules.len()
        invariant
            i <= config.rules@.len(),
            *config == c0,
            c0 == *old(config),
            crate::engine::inventory::rules_keys_distinct(c0),
            forall|j: int| 0 <= j < i ==> (#[trigger] c0.rules@[j]).0@ != module_id@,
        decreases config.rules@.len() - i,
    {
        let same = {
            let a = crate::text::chars_of(config.rules[i].0.as_str());
            let b = crate::text::chars_of(module_id);
            crate::text::same_chars(&a, &b)
        };
        if same {
            let key = String::from_str(module_id);
            config.rules.set(i, (key, rules));
            proof {
                let c1 = *config;
                assert(c1.rules@ == c0.rules@.update(i as int, c1.rules@[i as int]));
                assert forall|a: int, b: int| 0 <= a < b < c1.rules@.len() implies (#[trigger] c1.rules@[a]).0@ != (#[trigger] c1.rules@[b]).0@ by {
                    assert(c0.rules@[a].0@ != c0.rules@[b].0@);
                    if a == i {
                        assert(c0.rules@[i as int].0@ == module_id@);
                    }
                    if b == i {
                        assert(c0.rules@[i as int].0@ == module_id@);
                    }
                }
                lemma_configured_at(c1, i as int);
                assert forall|id: Seq<char>| id != module_id@ implies crate::engine::inventory::configured_rules(c1, id)
                    == crate::engine::inventory::configured_rules(c0, id) by {
                    if exists|k: int| 0 <= k < c0.rules@.len() && (#[trigger] c0.rules@[k]).0@ == id {
                        let k = choose|k: int| 0 <= k < c0.rules@.len() && (#[trigger] c0.rules@[k]).0@ == id;
                        assert(k != i);
                        assert(c1.rules@[k] == c0.rules@[k]);
                        lemma_configured_at(c0, k);
                        lemma_configured_at(c1, k);
                    }
                    if exists|k: int| 0 <= k < c1.rules@.len() && (#[trigger] c1.rules@[k]).0@ == id {
                        let k = choose|k: int| 0 <= k < c1.rules@.len() && (#[trigger] c1.rules@[k]).0@ == id;
                        assert(k != i);
                        assert(c1.rules@[k] == c0.rules@[k]);
                    }
                }
            }
            return;
        }
        i = i + 1;
    }
    let key = String::from_str(module_id);
    config.rules.push((key, rules));
    proof {
        let c1 = *config;
        let n = c0.rules@.len() as int;
        assert(c1.rules@ == c0.rules@.push(c1.rules@[n]));
        assert forall|a: int, b: int| 0 <= a < b < c1.rules@.len() implies (#[trigger] c1.rules@[a]).0@ != (#[trigger] c1.rules@[b]).0@ by {
            if b == n {
                assert(c0.rules@[a].0@ != module_id@);
            } else {
                assert(c0.rules@[a].0@ != c0.rules@[b].0@);
            }
        }
        lemma_configured_at(c1, n);
        assert forall|id: Seq<char>| id != module_id@ implies crate::engine::inventory::configured_rules(c1, id)
            == crate::engine::inventory::configured_rules(c0, id) by {
            if exists|k: int| 0 <= k < c0.rules@.len() && (#[trigger] c0.rules@[k]).0@ == id {
                let k = choose|k: int| 0 <= k < c0.rules@.len() && (#[trigger] c0.rules@[k]).0@ == id;
                assert(c1.rules@[k] == c0.rules@[k]);
                lemma_configured_at(c0, k);
                lemma_configured_at(c1, k);
            }
            if exists|k: int| 0 <= k < c1.rules@.len() && (#[trigger] c1.rules@[k]).0@ == id {
                let k = choose|k: int| 0 <= k < c1.rules@.len() && (#[trigger] c1.rules@[k]).0@ == id;
                assert(k != n);
                assert(c1.rules@[k] == c0.rules@[k]);
            }
        }
    }
}

} // verus!
