//! Fixed paths and names.
use vstd::prelude::*;

use crate::strset::string_views;

verus! {

pub const ADB_DIR: &'static str = "/data/adb";
pub const HYBRID_MOUNT_DIR: &'static str = "/data/adb/hybrid-mount";
pub const MODULES_DIR: &'static str = "/data/adb/modules";
pub const HYBRID_MOUNT_MODULE_DIR: &'static str = "/data/adb/modules/hybrid_mount";
pub const MODULES_IMG_FILE: &'static str = "/data/adb/hybrid-mount/modules.img";
pub const KASUMI_IMG_FILE: &'static str = "/data/adb/hybrid-mount/kasumi.img";
pub const HYMOFS_IMG_FILE: &'static str = "/data/adb/hybrid-mount/hymofs.img";
pub const RUN_DIR: &'static str = "/data/adb/hybrid-mount/run/";
pub const STATE_FILE: &'static str = "/data/adb/hybrid-mount/run/daemon_state.json";
pub const DAEMON_LOG_FILE: &'static str = "/data/adb/hybrid-mount/run/daemon.log";
pub const SYSTEM_RW_DIR: &'static str = "/data/adb/hybrid-mount/rw";
pub const CONFIG_FILE: &'static str = "/data/adb/hybrid-mount/config.toml";
pub const USER_HIDE_RULES_FILE: &'static str = "/data/adb/hybrid-mount/user_hide_rules.json";
pub const MODULE_PROP_FILE: &'static str = "/data/adb/modules/hybrid_mount/module.prop";
pub const KASUMI_MIRROR_DIR: &'static str = "/dev/kasumi_mirror";
pub const KASUMI_LKM_DIR: &'static str = "/data/adb/modules/hybrid_mount/kasumi_lkm";
pub const KASUMI_LKM_MODULE_NAME: &'static str = "kasumi_lkm";
pub const HYMOFS_MIRROR_DIR: &'static str = "/dev/hymo_mirror";
pub const HYMOFS_LKM_DIR: &'static str = "/data/adb/modules/hybrid_mount/hymofs_lkm";
pub const DISABLE_FILE_NAME: &'static str = "disable";
pub const REMOVE_FILE_NAME: &'static str = "remove";
pub const MOUNT_ERROR_FILE_NAME: &'static str = "mount_error";
pub const SKIP_MOUNT_FILE_NAME: &'static str = "skip_mount";
pub const REPLACE_DIR_FILE_NAME: &'static str = ".replace";
pub const REPLACE_DIR_XATTR: &'static str = "trusted.overlay.opaque";

/// The partitions that are always managed.
pub open spec fn managed_partitions_spec() -> Seq<Seq<char>> {
    seq!["system"@, "vendor"@, "product"@, "system_ext"@, "odm"@, "oem"@, "apex"@]
}

pub fn managed_partitions() -> (r: Vec<String>)
    ensures
        string_views(r@) == managed_partitions_spec(),
{
    let mut v: Vec<String> = Vec::new();
    v.push(String::from_str("system"));
    v.push(String::from_str("vendor"));
    v.push(String::from_str("product"));
    v.push(String::from_str("system_ext"));
    v.push(String::from_str("odm"));
    v.push(String::from_str("oem"));
    v.push(String::from_str("apex"));
    assert(string_views(v@) =~= managed_partitions_spec());
    v
}

/// Overlay targets that are mounted with the plain `overlay` source, so that
/// unmount helpers leave them alone.
pub open spec fn ignore_unmount_partitions_spec() -> Seq<Seq<char>> {
    seq!["/vendor/lib"@, "/vendor/lib64"@, "/system/lib"@, "/system/lib64"@]
}

pub fn ignore_unmount_partitions() -> (r: Vec<String>)
    ensures
        string_views(r@) == ignore_unmount_partitions_spec(),
{
    let mut v: Vec<String> = Vec::new();
    v.push(String::from_str("/vendor/lib"));
    v.push(String::from_str("/vendor/lib64"));
    v.push(String::from_str("/system/lib"));
    v.push(String::from_str("/system/lib64"));
    assert(string_views(v@) =~= ignore_unmount_partitions_spec());
    v
}

} // verus!
