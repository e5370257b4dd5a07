//! The configuration: its fields, their defaults, and the adjustments made
//! to it after loading.
use vstd::prelude::*;

use crate::defs;
use crate::domain::{DefaultMode, ModuleRules, MountMode};
use crate::paths::{path_view, same_path};
use crate::text::{char_views, chars_of, split_on, split_on_chars, string_from_chars, trim, trim_chars};

verus! {

/// Where overlay content is staged.
#[derive(Debug, Clone, Copy, PartialEq, Eq, Structural)]
pub enum OverlayMode {
    Tmpfs,
    Ext4,
}

impl Default for OverlayMode {
    fn default() -> (r: Self)
        ensures
            r == OverlayMode::Ext4,
    {
        OverlayMode::Ext4
    }
}

/// A rule that rewrites one mapping in `/proc/*/maps`.
#[derive(Debug, Clone)]
pub struct HymoMapsRuleConfig {
    pub target_ino: u64,
    pub target_dev: u64,
    pub spoofed_ino: u64,
    pub spoofed_dev: u64,
    pub spoofed_pathname: String,
}

/// A rule that rewrites what `stat` reports for one file.
#[derive(Debug, Clone)]
pub struct HymoKstatRuleConfig {
    pub target_ino: u64,
    pub target_pathname: String,
    pub spoofed_ino: u64,
    pub spoofed_dev: u64,
    pub spoofed_nlink: u32,
    pub spoofed_size: i64,
    pub spoofed_atime_sec: i64,
    pub spoofed_atime_nsec: i64,
    pub spoofed_mtime_sec: i64,
    pub spoofed_mtime_nsec: i64,
    pub spoofed_ctime_sec: i64,
    pub spoofed_ctime_nsec: i64,
    pub spoofed_blksize: u64,
    pub spoofed_blocks: u64,
    pub is_static: bool,
}

impl Default for HymoKstatRuleConfig {
    fn default() -> (r: Self)
        ensures
            r.target_ino == 0 && r.target_pathname@.len() == 0 && r.spoofed_ino == 0
                && r.spoofed_dev == 0 && r.spoofed_nlink == 0 && r.spoofed_size == 0
                && r.spoofed_atime_sec == 0 && r.spoofed_atime_nsec == 0 && r.spoofed_mtime_sec
                == 0 && r.spoofed_mtime_nsec == 0 && r.spoofed_ctime_sec == 0
                && r.spoofed_ctime_nsec == 0 && r.spoofed_blksize == 0 && r.spoofed_blocks == 0
                && !r.is_static,
    {
        HymoKstatRuleConfig {
            target_ino: 0,
            target_pathname: String::new(),
            spoofed_ino: 0,
            spoofed_dev: 0,
            spoofed_nlink: 0,
            spoofed_size: 0,
            spoofed_atime_sec: 0,
            spoofed_atime_nsec: 0,
            spoofed_mtime_sec: 0,
            spoofed_mtime_nsec: 0,
            spoofed_ctime_sec: 0,
            spoofed_ctime_nsec: 0,
            spoofed_blksize: 0,
            spoofed_blocks: 0,
            is_static: false,
        }
    }
}

/// Values to report from `uname`; an empty field is left alone.
#[derive(Debug, Clone)]
pub struct HymoUnameConfig {
    pub sysname: String,
    pub nodename: String,
    pub release: String,
    pub version: String,
    pub machine: String,
    pub domainname: String,
}

impl HymoUnameConfig {
    pub open spec fn is_blank(&self) -> bool {
        &&& self.sysname@.len() == 0
        &&& self.nodename@.len() == 0
        &&& self.release@.len() == 0
        &&& self.version@.len() == 0
        &&& self.machine@.len() == 0
        &&& self.domainname@.len() == 0
    }
}

impl Default for HymoUnameConfig {
    fn default() -> (r: Self)
        ensures
            r.is_blank(),
    {
        HymoUnameConfig {
            sysname: String::new(),
            nodename: String::new(),
            release: String::new(),
            version: String::new(),
            machine: String::new(),
            domainname: String::new(),
        }
    }
}

/// Hiding of mounts whose path matches a pattern.
#[derive(Debug, Clone)]
pub struct HymoMountHideConfig {
    pub enabled: bool,
    pub path_pattern: String,
}

impl Default for HymoMountHideConfig {
    fn default() -> (r: Self)
        ensures
            !r.enabled && r.path_pattern@.len() == 0,
    {
        HymoMountHideConfig { enabled: false, path_pattern: String::new() }
    }
}

/// Rewriting of the filesystem type that `statfs` reports for a path.
#[derive(Debug, Clone)]
pub struct HymoStatfsSpoofConfig {
    pub enabled: bool,
    pub path: String,
    pub spoof_f_type: u64,
}

impl Default for HymoStatfsSpoofConfig {
    fn default() -> (r: Self)
        ensures
            !r.enabled && r.path@.len() == 0 && r.spoof_f_type == 0,
    {
        HymoStatfsSpoofConfig { enabled: false, path: String::new(), spoof_f_type: 0 }
    }
}

/// Settings of the kernel-side file redirection (HymoFS).
#[derive(Debug, Clone)]
pub struct HymoFsConfig {
    pub enabled: bool,
    pub ignore_protocol_mismatch: bool,
    pub lkm_autoload: bool,
    pub lkm_dir: String,
    pub lkm_kmi_override: String,
    pub mirror_path: String,
    pub enable_kernel_debug: bool,
    pub enable_stealth: bool,
    pub enable_hidexattr: bool,
    pub enable_mount_hide: bool,
    pub enable_maps_spoof: bool,
    pub enable_statfs_spoof: bool,
    pub mount_hide: HymoMountHideConfig,
    pub statfs_spoof: HymoStatfsSpoofConfig,
    pub hide_uids: Vec<u32>,
    pub uname: HymoUnameConfig,
    pub uname_release: String,
    pub uname_version: String,
    pub cmdline_value: String,
    pub kstat_rules: Vec<HymoKstatRuleConfig>,
    pub maps_rules: Vec<HymoMapsRuleConfig>,
}

impl HymoFsConfig {
    /// The values a missing `[hymofs]` table stands for.
    pub open spec fn is_default(&self) -> bool {
        &&& !self.enabled
        &&& !self.ignore_protocol_mismatch
        &&& self.lkm_autoload
        &&& self.lkm_dir@ == defs::HYMOFS_LKM_DIR@
        &&& self.lkm_kmi_override@.len() == 0
        &&& self.mirror_path@ == defs::HYMOFS_MIRROR_DIR@
        &&& !self.enable_kernel_debug
        &&& self.enable_stealth
        &&& !self.enable_hidexattr
        &&& !self.enable_mount_hide
        &&& !self.enable_maps_spoof
        &&& !self.enable_statfs_spoof
        &&& !self.mount_hide.enabled
        &&& self.mount_hide.path_pattern@.len() == 0
        &&& !self.statfs_spoof.enabled
        &&& self.statfs_spoof.path@.len() == 0
        &&& self.statfs_spoof.spoof_f_type == 0
        &&& self.hide_uids@.len() == 0
        &&& self.uname.is_blank()
        &&& self.uname_release@.len() == 0
        &&& self.uname_version@.len() == 0
        &&& self.cmdline_value@.len() == 0
        &&& self.kstat_rules@.len() == 0
        &&& self.maps_rules@.len() == 0
    }
}

impl Default for HymoFsConfig {
    fn default() -> (r: Self)
        ensures
            r.is_default(),
    {
        HymoFsConfig {
            enabled: false,
            ignore_protocol_mismatch: false,
            lkm_autoload: true,
            lkm_dir: String::from_str(defs::HYMOFS_LKM_DIR),
            lkm_kmi_override: String::new(),
            mirror_path: String::from_str(defs::HYMOFS_MIRROR_DIR),
            enable_kernel_debug: false,
            enable_stealth: true,
            enable_hidexattr: false,
            enable_mount_hide: false,
            enable_maps_spoof: false,
            enable_statfs_spoof: false,
            mount_hide: HymoMountHideConfig::default(),
            statfs_spoof: HymoStatfsSpoofConfig::default(),
            hide_uids: Vec::new(),
            uname: HymoUnameConfig::default(),
            uname_release: String::new(),
            uname_version: String::new(),
            cmdline_value: String::new(),
            kstat_rules: Vec::new(),
            maps_rules: Vec::new(),
        }
    }
}

/// The whole configuration.
#[derive(Debug, Clone)]
pub struct Config {
    pub moduledir: String,
    pub mountsource: String,
    pub partitions: Vec<String>,
    pub overlay_mode: OverlayMode,
    pub disable_umount: bool,
    pub allow_umount_coexistence: bool,
    pub enable_overlay_fallback: bool,
    pub default_mode: DefaultMode,
    pub hymofs: HymoFsConfig,
    pub rules: Vec<(String, ModuleRules)>,
}

/// The mount source a configuration uses when none was detected: KernelSU's.
pub const DEFAULT_MOUNT_SOURCE: &'static str = "KSU";

impl Config {
    /// The values of an empty configuration file, apart from the mount
    /// source.
    pub open spec fn is_default_except_source(&self) -> bool {
        &&& self.moduledir@ == defs::MODULES_DIR@
        &&& self.partitions@.len() == 0
        &&& self.overlay_mode == OverlayMode::Ext4
        &&& !self.disable_umount
        &&& !self.allow_umount_coexistence
        &&& !self.enable_overlay_fallback
        &&& self.default_mode == DefaultMode::Overlay
        &&& self.hymofs.is_default()
        &&& self.rules@.len() == 0
    }

    /// The default configuration with the given mount source.
    pub fn with_mount_source(mountsource: String) -> (r: Self)
        ensures
            r.is_default_except_source(),
            r.mountsource == mountsource,
    {
        Config {
            moduledir: String::from_str(defs::MODULES_DIR),
            mountsource,
            partitions: Vec::new(),
            overlay_mode: OverlayMode::Ext4,
            disable_umount: false,
            allow_umount_coexistence: false,
            enable_overlay_fallback: false,
            default_mode: DefaultMode::Overlay,
            hymofs: HymoFsConfig::default(),
            rules: Vec::new(),
        }
    }

    /// Replaces what the command line gave: the module directory and the
    /// mount source when present, the partitions when not empty.
    pub fn merge_with_cli(
        &mut self,
        moduledir: Option<String>,
        mountsource: Option<String>,
        partitions: Vec<String>,
    )
        ensures
            final(self).moduledir == (match moduledir {
                Some(d) => d,
                None => old(self).moduledir,
            }),
            final(self).mountsource == (match mountsource {
                Some(s) => s,
                None => old(self).mountsource,
            }),
            final(self).partitions == (if partitions@.len() == 0 {
                old(self).partitions
            } else {
                partitions
            }),
            final(self).overlay_mode == old(self).overlay_mode,
            final(self).disable_umount == old(self).disable_umount,
            final(self).allow_umount_coexistence == old(self).allow_umount_coexistence,
            final(self).enable_overlay_fallback == old(self).enable_overlay_fallback,
            final(self).default_mode == old(self).default_mode,
            final(self).hymofs == old(self).hymofs,
            final(self).rules == old(self).rules,
    {
        if let Some(dir) = moduledir {
            self.moduledir = dir;
        }
        if let Some(source) = mountsource {
            self.mountsource = source;
        }
        if partitions.len() != 0 {
            self.partitions = partitions;
        }
    }
}

impl Default for Config {
    fn default() -> (r: Self)
        ensures
            r.is_default_except_source(),
            r.mountsource@ == DEFAULT_MOUNT_SOURCE@,
    {
        Config::with_mount_source(String::from_str(DEFAULT_MOUNT_SOURCE))
    }
}

/// The trimmed, non-empty pieces of a list.
pub open spec fn trimmed_items(pieces: Seq<Seq<char>>) -> Seq<Seq<char>>
    decreases pieces.len(),
{
    if pieces.len() == 0 {
        Seq::empty()
    } else {
        let prev = trimmed_items(pieces.drop_last());
        let t = trim(pieces.last());
        if t.len() == 0 {
            prev
        } else {
            prev.push(t)
        }
    }
}

/// The partitions a comma-separated string names: each item trimmed, the
/// empty ones dropped.
pub fn parse_partition_list(s: &str) -> (r: Vec<String>)
    ensures
        r@.map_values(|p: String| p@) == trimmed_items(split_on(s@, ',')),
{
    let v = chars_of(s);
    let pieces = split_on_chars(&v, ',');
    let ghost pv = char_views(pieces@);
    let mut out: Vec<String> = Vec::new();
    let mut i: usize = 0;
    while i < pieces.len()
        invariant
            i <= pieces@.len(),
            pv == char_views(pieces@),
            out@.map_values(|p: String| p@) == trimmed_items(pv.take(i as int)),
        decreases pieces@.len() - i,
    {
        assert(pv.take(i + 1).drop_last() =~= pv.take(i as int));
        assert(pv.take(i + 1).last() == pieces@[i as int]@);
        let t = trim_chars(&pieces[i]);
        if t.len() > 0 {
            let item = string_from_chars(&t);
            let ghost prev = out@;
            out.push(item);
            assert(out@.map_values(|p: String| p@) =~= prev.map_values(|p: String| p@).push(t@));
        }
        i = i + 1;
    }
    assert(pv.take(pieces@.len() as int) =~= pv);
    out
}

/// The module directory's old location of the kernel module files.
pub open spec fn legacy_lkm_dir() -> Seq<char> {
    defs::HYBRID_MOUNT_MODULE_DIR@ + "/hymofs_lkm"@
}

/// Points a configuration that still names the old kernel module directory
/// at the current one; changes nothing else.
pub fn migrate_legacy_kasumi_lkm_dir(config: &mut Config)
    ensures
        same_path(old(config).hymofs.lkm_dir@, legacy_lkm_dir()) ==> final(config).hymofs.lkm_dir@
            == defs::KASUMI_LKM_DIR@,
        !same_path(old(config).hymofs.lkm_dir@, legacy_lkm_dir()) ==> final(config).hymofs.lkm_dir
            == old(config).hymofs.lkm_dir,
        *final(config) == (Config {
            hymofs: HymoFsConfig { lkm_dir: final(config).hymofs.lkm_dir, ..old(config).hymofs },
            ..*old(config)
        }),
{
    let mut legacy = String::from_str(defs::HYBRID_MOUNT_MODULE_DIR);
    legacy.append("/hymofs_lkm");
    let a = crate::paths::path_parts(config.hymofs.lkm_dir.as_str());
    let b = crate::paths::path_parts(legacy.as_str());
    if crate::paths::same_parts(&a, &b) {
        config.hymofs.lkm_dir = String::from_str(defs::KASUMI_LKM_DIR);
    }
}

} // verus!
