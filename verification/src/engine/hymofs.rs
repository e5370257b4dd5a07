//! HymoFS runtime decisions: whether the kernel redirection has to be turned
//! on, which switches and spoofs to load, and how the module mirror becomes
//! redirection rules.
use vstd::prelude::*;

use crate::conf::schema::{Config, HymoFsConfig};
use crate::defs;
use crate::domain::{ModuleRules, MountMode};
use crate::engine::plan::{HymofsAddRule, HymofsMergeRule, MountPlan};
use crate::strset::{contains_string, extend_sorted, insert_sorted, lemma_sorted_seq, sorted_seq, sorted_unique, string_views, strictly_sorted};

verus! {

/// Stealth is on when asked for, or implied by xattr hiding.
pub open spec fn stealth_on(h: HymoFsConfig) -> bool {
    h.enable_stealth || h.enable_hidexattr
}

/// Mount hiding is on when asked for in any of its forms.
pub open spec fn mount_hide_on(h: HymoFsConfig) -> bool {
    h.enable_mount_hide || h.enable_hidexattr || h.mount_hide.enabled
        || h.mount_hide.path_pattern@.len() > 0
}

/// Maps spoofing is on when asked for or when there are maps rules.
pub open spec fn maps_spoof_on(h: HymoFsConfig) -> bool {
    h.enable_maps_spoof || h.enable_hidexattr || h.maps_rules@.len() > 0
}

/// Statfs spoofing is on when asked for in any of its forms.
pub open spec fn statfs_spoof_on(h: HymoFsConfig) -> bool {
    h.enable_statfs_spoof || h.enable_hidexattr || h.statfs_spoof.enabled
        || h.statfs_spoof.path@.len() > 0 || h.statfs_spoof.spoof_f_type != 0
}

/// Some `uname` field is to be reported differently.
pub open spec fn uname_spoof_on(h: HymoFsConfig) -> bool {
    h.uname.sysname@.len() > 0 || h.uname.nodename@.len() > 0 || h.uname.release@.len() > 0
        || h.uname.version@.len() > 0 || h.uname.machine@.len() > 0 || h.uname.domainname@.len()
        > 0 || h.uname_release@.len() > 0 || h.uname_version@.len() > 0
}

pub fn effective_stealth_enabled(config: &Config) -> (r: bool)
    ensures
        r == stealth_on(config.hymofs),
{
    config.hymofs.enable_stealth || config.hymofs.enable_hidexattr
}

pub fn effective_mount_hide_enabled(config: &Config) -> (r: bool)
    ensures
        r == mount_hide_on(config.hymofs),
{
    config.hymofs.enable_mount_hide || config.hymofs.enable_hidexattr
        || config.hymofs.mount_hide.enabled || !config.hymofs.mount_hide.path_pattern.as_str().is_empty()
}

pub fn effective_maps_spoof_enabled(config: &Config) -> (r: bool)
    ensures
        r == maps_spoof_on(config.hymofs),
{
    config.hymofs.enable_maps_spoof || config.hymofs.enable_hidexattr
        || config.hymofs.maps_rules.len() > 0
}

pub fn effective_statfs_spoof_enabled(config: &Config) -> (r: bool)
    ensures
        r == statfs_spoof_on(config.hymofs),
{
    config.hymofs.enable_statfs_spoof || config.hymofs.enable_hidexattr
        || config.hymofs.statfs_spoof.enabled || !config.hymofs.statfs_spoof.path.as_str().is_empty()
        || config.hymofs.statfs_spoof.spoof_f_type != 0
}

pub fn has_uname_spoof_config(config: &Config) -> (r: bool)
    ensures
        r == uname_spoof_on(config.hymofs),
{
    let h = &config.hymofs;
    !h.uname.sysname.as_str().is_empty() || !h.uname.nodename.as_str().is_empty()
        || !h.uname.release.as_str().is_empty() || !h.uname.version.as_str().is_empty()
        || !h.uname.machine.as_str().is_empty() || !h.uname.domainname.as_str().is_empty()
        || !h.uname_release.as_str().is_empty() || !h.uname_version.as_str().is_empty()
}

/// Some feature besides path redirection asks for the runtime; the user
/// hide rules count is read from their file by the caller.
pub open spec fn auxiliary_on(h: HymoFsConfig, user_hide_rule_count: nat) -> bool {
    h.enable_kernel_debug || stealth_on(h) || mount_hide_on(h) || maps_spoof_on(h)
        || statfs_spoof_on(h) || uname_spoof_on(h) || h.cmdline_value@.len() > 0
        || h.hide_uids@.len() > 0 || h.kstat_rules@.len() > 0 || user_hide_rule_count > 0
}

pub fn auxiliary_features_requested(config: &Config, user_hide_rule_count: usize) -> (r: bool)
    ensures
        r == auxiliary_on(config.hymofs, user_hide_rule_count as nat),
{
    config.hymofs.enable_kernel_debug || effective_stealth_enabled(config)
        || effective_mount_hide_enabled(config) || effective_maps_spoof_enabled(config)
        || effective_statfs_spoof_enabled(config) || has_uname_spoof_config(config)
        || !config.hymofs.cmdline_value.as_str().is_empty() || config.hymofs.hide_uids.len() > 0
        || config.hymofs.kstat_rules.len() > 0 || user_hide_rule_count > 0
}

/// The plan hands modules to HymoFS.
pub fn mount_mapping_requested(plan: &MountPlan) -> (r: bool)
    ensures
        r == (plan.hymofs_module_ids@.len() > 0),
{
    plan.hymofs_module_ids.len() > 0
}

/// The runtime is needed: HymoFS is enabled, and either modules are mapped
/// or some other feature is asked for.
pub open spec fn runtime_requested(plan: MountPlan, h: HymoFsConfig, user_hide_rule_count: nat) -> bool {
    h.enabled && (plan.hymofs_module_ids@.len() > 0 || auxiliary_on(h, user_hide_rule_count))
}

pub fn hymofs_runtime_requested(plan: &MountPlan, config: &Config, user_hide_rule_count: usize) -> (r: bool)
    ensures
        r == runtime_requested(*plan, config.hymofs, user_hide_rule_count as nat),
{
    config.hymofs.enabled && (mount_mapping_requested(plan) || auxiliary_features_requested(
        config,
        user_hide_rule_count,
    ))
}

/// Feature bits the kernel side reports.
pub const HYMO_FEATURE_KSTAT_SPOOF: i32 = 1;
pub const HYMO_FEATURE_MAPS_SPOOF: i32 = 2;
pub const HYMO_FEATURE_MOUNT_HIDE: i32 = 4;
pub const HYMO_FEATURE_STATFS_SPOOF: i32 = 8;
pub const HYMO_FEATURE_UNAME_SPOOF: i32 = 16;
pub const HYMO_FEATURE_CMDLINE_SPOOF: i32 = 32;

/// A feature is usable when the kernel lists it, or when the kernel could
/// not be asked.
pub open spec fn supports(features: Option<i32>, required: i32) -> bool {
    match features {
        Some(bits) => bits & required != 0,
        None => true,
    }
}

pub fn feature_supported(features: Option<i32>, required_feature: i32) -> (r: bool)
    ensures
        r == supports(features, required_feature),
{
    match features {
        Some(bits) => bits & required_feature != 0,
        None => true,
    }
}

/// The partitions HymoFS rules are compiled for: the built-in ones,
/// `system`, and the configured ones.
pub open spec fn managed_set(config: Config) -> Set<Seq<char>> {
    defs::managed_partitions_spec().to_set().insert("system"@).union(
        string_views(config.partitions@).to_set(),
    )
}

/// The managed partitions, sorted, each once.
pub fn build_managed_partitions(config: &Config) -> (r: Vec<String>)
    ensures
        string_views(r@) == sorted_seq(managed_set(*config)),
{
    let builtin = defs::managed_partitions();
    let mut out = sorted_unique(&builtin);
    insert_sorted(&mut out, String::from_str("system"));
    extend_sorted(&mut out, &config.partitions);
    proof {
        lemma_sorted_seq(string_views(out@));
    }
    out
}

/// The node kinds of the compiled rule tree.
#[derive(Debug, Clone, Copy, PartialEq, Eq, Structural)]
pub enum HymofsTreeFileType {
    Root,
    Directory,
    RegularFile,
    Symlink,
    BlockDevice,
    CharDevice,
    Fifo,
    Socket,
    Hidden,
    Unknown,
}

pub open spec fn tree_file_type_name(t: HymofsTreeFileType) -> Seq<char> {
    match t {
        HymofsTreeFileType::Root => "Root"@,
        HymofsTreeFileType::Directory => "Directory"@,
        HymofsTreeFileType::RegularFile => "RegularFile"@,
        HymofsTreeFileType::Symlink => "Symlink"@,
        HymofsTreeFileType::BlockDevice => "BlockDevice"@,
        HymofsTreeFileType::CharDevice => "CharDevice"@,
        HymofsTreeFileType::Fifo => "Fifo"@,
        HymofsTreeFileType::Socket => "Socket"@,
        HymofsTreeFileType::Hidden => "Hidden"@,
        HymofsTreeFileType::Unknown => "Unknown"@,
    }
}

impl HymofsTreeFileType {
    pub fn as_str(self) -> (r: &'static str)
        ensures
            r@ == tree_file_type_name(self),
    {
        match self {
            HymofsTreeFileType::Root => "Root",
            HymofsTreeFileType::Directory => "Directory",
            HymofsTreeFileType::RegularFile => "RegularFile",
            HymofsTreeFileType::Symlink => "Symlink",
            HymofsTreeFileType::BlockDevice => "BlockDevice",
            HymofsTreeFileType::CharDevice => "CharDevice",
            HymofsTreeFileType::Fifo => "Fifo",
            HymofsTreeFileType::Socket => "Socket",
            HymofsTreeFileType::Hidden => "Hidden",
            HymofsTreeFileType::Unknown => "Unknown",
        }
    }
}

/// The `d_type` values of `readdir` (`DT_*` in `<dirent.h>`).
pub const DT_UNKNOWN: i32 = 0;
pub const DT_FIFO: i32 = 1;
pub const DT_CHR: i32 = 2;
pub const DT_DIR: i32 = 4;
pub const DT_BLK: i32 = 6;
pub const DT_REG: i32 = 8;
pub const DT_LNK: i32 = 10;
pub const DT_SOCK: i32 = 12;

pub open spec fn tree_type_of_dtype(d: i32) -> HymofsTreeFileType {
    if d == DT_DIR {
        HymofsTreeFileType::Directory
    } else if d == DT_REG {
        HymofsTreeFileType::RegularFile
    } else if d == DT_LNK {
        HymofsTreeFileType::Symlink
    } else if d == DT_BLK {
        HymofsTreeFileType::BlockDevice
    } else if d == DT_CHR {
        HymofsTreeFileType::CharDevice
    } else if d == DT_FIFO {
        HymofsTreeFileType::Fifo
    } else if d == DT_SOCK {
        HymofsTreeFileType::Socket
    } else {
        HymofsTreeFileType::Unknown
    }
}

pub fn tree_file_type_from_dtype(d_type: i32) -> (r: HymofsTreeFileType)
    ensures
        r == tree_type_of_dtype(d_type),
{
    if d_type == DT_DIR {
        HymofsTreeFileType::Directory
    } else if d_type == DT_REG {
        HymofsTreeFileType::RegularFile
    } else if d_type == DT_LNK {
        HymofsTreeFileType::Symlink
    } else if d_type == DT_BLK {
        HymofsTreeFileType::BlockDevice
    } else if d_type == DT_CHR {
        HymofsTreeFileType::CharDevice
    } else if d_type == DT_FIFO {
        HymofsTreeFileType::Fifo
    } else if d_type == DT_SOCK {
        HymofsTreeFileType::Socket
    } else {
        HymofsTreeFileType::Unknown
    }
}

/// The kind of a mirror entry, from its metadata (links not followed).
#[derive(Debug, Clone, Copy, PartialEq, Eq, Structural)]
pub enum EntryKind {
    File,
    Symlink,
    Dir,
    BlockDevice,
    CharDevice,
    Fifo,
    Socket,
    Other,
}

/// The `d_type` a rule for an entry carries, and whether the entry only
/// hides its target: a character device with device number 0 is the
/// whiteout that marks a deletion.
pub open spec fn dtype_of(kind: EntryKind, rdev: u64) -> (i32, bool) {
    if kind == EntryKind::CharDevice && rdev == 0 {
        (DT_UNKNOWN, true)
    } else {
        (
            match kind {
                EntryKind::File => DT_REG,
                EntryKind::Symlink => DT_LNK,
                EntryKind::Dir => DT_DIR,
                EntryKind::BlockDevice => DT_BLK,
                EntryKind::CharDevice => DT_CHR,
                EntryKind::Fifo => DT_FIFO,
                EntryKind::Socket => DT_SOCK,
                EntryKind::Other => DT_UNKNOWN,
            },
            false,
        )
    }
}

pub fn build_dtype(kind: EntryKind, rdev: u64) -> (r: (i32, bool))
    ensures
        r == dtype_of(kind, rdev),
{
    if kind == EntryKind::CharDevice && rdev == 0 {
        return (DT_UNKNOWN, true);
    }
    let d = match kind {
        EntryKind::File => DT_REG,
        EntryKind::Symlink => DT_LNK,
        EntryKind::Dir => DT_DIR,
        EntryKind::BlockDevice => DT_BLK,
        EntryKind::CharDevice => DT_CHR,
        EntryKind::Fifo => DT_FIFO,
        EntryKind::Socket => DT_SOCK,
        EntryKind::Other => DT_UNKNOWN,
    };
    (d, false)
}

/// What a switch with an argument comes to.
#[derive(Debug, Clone, PartialEq, Eq)]
pub enum SwitchStep<T> {
    /// Not asked for.
    Off,
    /// Asked for, but the kernel lacks the feature: skipped with a warning.
    Unsupported,
    /// Set, with this argument.
    Apply(T),
}

/// The runtime switches to set, in this order: debug, stealth, mount
/// hiding, maps spoofing, statfs spoofing. Debug and stealth failures abort;
/// the others only warn.
#[derive(Debug, Clone)]
pub struct RuntimeSwitches {
    pub debug: bool,
    pub stealth: bool,
    /// The path pattern, when one is configured.
    pub mount_hide: SwitchStep<Option<String>>,
    pub maps_spoof: SwitchStep<()>,
    /// The path and filesystem type, when either is configured.
    pub statfs_spoof: SwitchStep<Option<(String, u64)>>,
}

pub open spec fn opt_string_view(o: Option<String>) -> Option<Seq<char>> {
    match o {
        Some(s) => Some(s@),
        None => None,
    }
}

/// The switches `apply_runtime_switches` sets for a requested runtime.
pub open spec fn switches_fit(r: RuntimeSwitches, h: HymoFsConfig, features: Option<i32>) -> bool {
    &&& r.debug == h.enable_kernel_debug
    &&& r.stealth == stealth_on(h)
    &&& (if !mount_hide_on(h) {
        r.mount_hide == SwitchStep::<Option<String>>::Off
    } else if !supports(features, HYMO_FEATURE_MOUNT_HIDE) {
        r.mount_hide == SwitchStep::<Option<String>>::Unsupported
    } else {
        (r.mount_hide matches SwitchStep::Apply(p) && opt_string_view(p) == (if h.mount_hide.path_pattern@.len() > 0 {
            Some(h.mount_hide.path_pattern@)
        } else {
            None
        }))
    })
    &&& (if !maps_spoof_on(h) {
        r.maps_spoof == SwitchStep::<()>::Off
    } else if !supports(features, HYMO_FEATURE_MAPS_SPOOF) {
        r.maps_spoof == SwitchStep::<()>::Unsupported
    } else {
        r.maps_spoof == SwitchStep::Apply(())
    })
    &&& (if !statfs_spoof_on(h) {
        r.statfs_spoof == SwitchStep::<Option<(String, u64)>>::Off
    } else if !supports(features, HYMO_FEATURE_STATFS_SPOOF) {
        r.statfs_spoof == SwitchStep::<Option<(String, u64)>>::Unsupported
    } else {
        (r.statfs_spoof matches SwitchStep::Apply(a) && (if h.statfs_spoof.path@.len() > 0
            || h.statfs_spoof.spoof_f_type != 0 {
            (a matches Some((p, t)) && p@ == h.statfs_spoof.path@ && t == h.statfs_spoof.spoof_f_type)
        } else {
            a is None
        }))
    })
}

/// Each runtime feature is switched by its configuration: maps spoofing is
/// on (applied when the kernel supports it) whenever it is enabled, xattr
/// hiding is on or maps rules are configured, and off otherwise; likewise
/// mount hiding and statfs spoofing for their settings; stealth follows its
/// flag or xattr hiding, and debug its flag.
pub proof fn lemma_switches_follow_config(r: RuntimeSwitches, h: HymoFsConfig, features: Option<i32>)
    requires
        switches_fit(r, h, features),
    ensures
        r.debug == h.enable_kernel_debug,
        r.stealth == (h.enable_stealth || h.enable_hidexattr),
        (h.enable_maps_spoof || h.enable_hidexattr || h.maps_rules@.len() > 0) ==> r.maps_spoof
            != SwitchStep::<()>::Off,
        (h.enable_maps_spoof || h.enable_hidexattr || h.maps_rules@.len() > 0) && (features is None
            || features->0 & HYMO_FEATURE_MAPS_SPOOF != 0) ==> r.maps_spoof == SwitchStep::Apply(()),
        !(h.enable_maps_spoof || h.enable_hidexattr || h.maps_rules@.len() > 0) ==> r.maps_spoof
            == SwitchStep::<()>::Off,
        (h.enable_mount_hide || h.enable_hidexattr || h.mount_hide.enabled || h.mount_hide.path_pattern@.len() > 0)
            <==> r.mount_hide != SwitchStep::<Option<String>>::Off,
        (h.enable_statfs_spoof || h.enable_hidexattr || h.statfs_spoof.enabled || h.statfs_spoof.path@.len() > 0
            || h.statfs_spoof.spoof_f_type != 0) <==> r.statfs_spoof != SwitchStep::<Option<(String, u64)>>::Off,
{
}

/// The switches to set when the runtime is requested (`None` when it is
/// not, and nothing is set).
pub fn apply_runtime_switches(config: &Config, runtime_requested: bool, features: Option<i32>) -> (r: Option<RuntimeSwitches>)
    ensures
        !runtime_requested ==> r is None,
        runtime_requested ==> (r matches Some(s) && switches_fit(s, config.hymofs, features)),
{
    if !runtime_requested {
        return None;
    }
    let h = &config.hymofs;
    let mount_hide = if !effective_mount_hide_enabled(config) {
        SwitchStep::Off
    } else if !feature_supported(features, HYMO_FEATURE_MOUNT_HIDE) {
        SwitchStep::Unsupported
    } else if !h.mount_hide.path_pattern.as_str().is_empty() {
        SwitchStep::Apply(Some(h.mount_hide.path_pattern.clone()))
    } else {
        SwitchStep::Apply(None)
    };
    let maps_spoof = if !effective_maps_spoof_enabled(config) {
        SwitchStep::Off
    } else if !feature_supported(features, HYMO_FEATURE_MAPS_SPOOF) {
        SwitchStep::Unsupported
    } else {
        SwitchStep::Apply(())
    };
    let statfs_spoof = if !effective_statfs_spoof_enabled(config) {
        SwitchStep::Off
    } else if !feature_supported(features, HYMO_FEATURE_STATFS_SPOOF) {
        SwitchStep::Unsupported
    } else if !h.statfs_spoof.path.as_str().is_empty() || h.statfs_spoof.spoof_f_type != 0 {
        SwitchStep::Apply(Some((h.statfs_spoof.path.clone(), h.statfs_spoof.spoof_f_type)))
    } else {
        SwitchStep::Apply(None)
    };
    Some(
        RuntimeSwitches {
            debug: h.enable_kernel_debug,
            stealth: effective_stealth_enabled(config),
            mount_hide,
            maps_spoof,
            statfs_spoof,
        },
    )
}

/// The `uname` fields to report; `None` leaves a field alone.
#[derive(Debug, Clone)]
pub struct UnameSpoof {
    pub sysname: Option<String>,
    pub nodename: Option<String>,
    pub release: Option<String>,
    pub version: Option<String>,
    pub machine: Option<String>,
    pub domainname: Option<String>,
}

/// The field when it is not empty.
pub open spec fn nonempty(s: Seq<char>) -> Option<Seq<char>> {
    if s.len() > 0 {
        Some(s)
    } else {
        None
    }
}

/// `preferred` when it is set, else `fallback` when that is.
pub open spec fn override_field(preferred: Seq<char>, fallback: Seq<char>) -> Option<Seq<char>> {
    if preferred.len() > 0 {
        Some(preferred)
    } else {
        nonempty(fallback)
    }
}

pub open spec fn uname_fits(u: UnameSpoof, h: HymoFsConfig) -> bool {
    &&& opt_string_view(u.sysname) == nonempty(h.uname.sysname@)
    &&& opt_string_view(u.nodename) == nonempty(h.uname.nodename@)
    &&& opt_string_view(u.release) == override_field(h.uname_release@, h.uname.release@)
    &&& opt_string_view(u.version) == override_field(h.uname_version@, h.uname.version@)
    &&& opt_string_view(u.machine) == nonempty(h.uname.machine@)
    &&& opt_string_view(u.domainname) == nonempty(h.uname.domainname@)
}

/// The `uname` fields reported: each configured field, the top-level
/// release and version taking precedence over those of the `uname` table;
/// an empty field is left alone.
pub proof fn lemma_uname_fields(u: UnameSpoof, h: HymoFsConfig)
    requires
        uname_fits(u, h),
    ensures
        h.uname_release@.len() > 0 ==> opt_string_view(u.release) == Some(h.uname_release@),
        h.uname_release@.len() == 0 && h.uname.release@.len() > 0 ==> opt_string_view(u.release) == Some(h.uname.release@),
        h.uname_release@.len() == 0 && h.uname.release@.len() == 0 ==> u.release is None,
        h.uname_version@.len() > 0 ==> opt_string_view(u.version) == Some(h.uname_version@),
        h.uname.sysname@.len() > 0 ==> opt_string_view(u.sysname) == Some(h.uname.sysname@),
        h.uname.sysname@.len() == 0 ==> u.sysname is None,
        h.uname.machine@.len() > 0 ==> opt_string_view(u.machine) == Some(h.uname.machine@),
{
}

/// The spoofing to load, in this order: `uname`, the kernel command line,
/// the hidden uids, the `stat` rules (each updated, else added) and the maps
/// rules of the configuration. A failure to set the hidden uids only warns.
#[derive(Debug, Clone)]
pub struct SpoofSettings {
    pub uname: SwitchStep<UnameSpoof>,
    pub cmdline: SwitchStep<String>,
    pub hide_uids: Option<Vec<u32>>,
    pub kstat_rules: SwitchStep<()>,
    pub maps_rules: SwitchStep<()>,
}

fn field_if_set(s: &String) -> (r: Option<String>)
    ensures
        opt_string_view(r) == nonempty(s@),
{
    if s.as_str().is_empty() {
        None
    } else {
        Some(s.clone())
    }
}

fn field_override(preferred: &String, fallback: &String) -> (r: Option<String>)
    ensures
        opt_string_view(r) == override_field(preferred@, fallback@),
{
    if !preferred.as_str().is_empty() {
        Some(preferred.clone())
    } else {
        field_if_set(fallback)
    }
}

/// What `apply_spoof_settings` loads for `config` on a kernel with
/// `features`.
pub fn apply_spoof_settings(config: &Config, features: Option<i32>) -> (r: SpoofSettings)
    ensures
        (if !uname_spoof_on(config.hymofs) {
            r.uname is Off
        } else if !supports(features, HYMO_FEATURE_UNAME_SPOOF) {
            r.uname is Unsupported
        } else {
            (r.uname matches SwitchStep::Apply(u) && uname_fits(u, config.hymofs))
        }),
        (if config.hymofs.cmdline_value@.len() == 0 {
            r.cmdline is Off
        } else if !supports(features, HYMO_FEATURE_CMDLINE_SPOOF) {
            r.cmdline is Unsupported
        } else {
            (r.cmdline matches SwitchStep::Apply(c) && c@ == config.hymofs.cmdline_value@)
        }),
        (if config.hymofs.hide_uids@.len() == 0 {
            r.hide_uids is None
        } else {
            (r.hide_uids matches Some(u) && u@ == config.hymofs.hide_uids@)
        }),
        (if config.hymofs.kstat_rules@.len() == 0 {
            r.kstat_rules is Off
        } else if !supports(features, HYMO_FEATURE_KSTAT_SPOOF) {
            r.kstat_rules is Unsupported
        } else {
            r.kstat_rules is Apply
        }),
        (if config.hymofs.maps_rules@.len() == 0 {
            r.maps_rules is Off
        } else if !supports(features, HYMO_FEATURE_MAPS_SPOOF) {
            r.maps_rules is Unsupported
        } else {
            r.maps_rules is Apply
        }),
{
    let h = &config.hymofs;
    let has_uname = has_uname_spoof_config(config);
    let uname = if !has_uname {
        SwitchStep::Off
    } else if !feature_supported(features, HYMO_FEATURE_UNAME_SPOOF) {
        SwitchStep::Unsupported
    } else {
        SwitchStep::Apply(
            UnameSpoof {
                sysname: field_if_set(&h.uname.sysname),
                nodename: field_if_set(&h.uname.nodename),
                release: field_override(&h.uname_release, &h.uname.release),
                version: field_override(&h.uname_version, &h.uname.version),
                machine: field_if_set(&h.uname.machine),
                domainname: field_if_set(&h.uname.domainname),
            },
        )
    };
    let cmdline = if h.cmdline_value.as_str().is_empty() {
        SwitchStep::Off
    } else if !feature_supported(features, HYMO_FEATURE_CMDLINE_SPOOF) {
        SwitchStep::Unsupported
    } else {
        SwitchStep::Apply(h.cmdline_value.clone())
    };
    let hide_uids = if h.hide_uids.len() == 0 {
        None
    } else {
        Some(h.hide_uids.clone())
    };
    let kstat_rules = if h.kstat_rules.len() == 0 {
        SwitchStep::Off
    } else if !feature_supported(features, HYMO_FEATURE_KSTAT_SPOOF) {
        SwitchStep::Unsupported
    } else {
        SwitchStep::Apply(())
    };
    let maps_rules = if h.maps_rules.len() == 0 {
        SwitchStep::Off
    } else if !feature_supported(features, HYMO_FEATURE_MAPS_SPOOF) {
        SwitchStep::Unsupported
    } else {
        SwitchStep::Apply(())
    };
    SpoofSettings { uname, cmdline, hide_uids, kstat_rules, maps_rules }
}

/// What rule application does first.
#[derive(Debug, Clone, PartialEq, Eq)]
pub enum RuleApplyStart {
    /// HymoFS is disabled: nothing to do, the runtime stays off.
    Disabled,
    /// HymoFS cannot operate and no module needs it: the runtime stays off.
    Unavailable,
    /// HymoFS cannot operate although modules are mapped to it.
    Fail(String),
    /// Go on; the flags say whether the runtime is requested and whether the
    /// mirror is compiled into rules.
    Proceed { runtime_requested: bool, compile: bool },
}

pub open spec fn unavailable_apply_msg() -> Seq<char> {
    "HymoFS became unavailable before rule application"@
}

/// The first step of rule application, given whether HymoFS can operate.
pub fn apply_start(plan: &MountPlan, config: &Config, available: bool, user_hide_rule_count: usize) -> (r: RuleApplyStart)
    ensures
        r == (if !config.hymofs.enabled {
            RuleApplyStart::Disabled
        } else if !available {
            if plan.hymofs_module_ids@.len() > 0 {
                RuleApplyStart::Fail(r->Fail_0)
            } else {
                RuleApplyStart::Unavailable
            }
        } else {
            RuleApplyStart::Proceed {
                runtime_requested: runtime_requested(*plan, config.hymofs, user_hide_rule_count as nat),
                compile: plan.hymofs_module_ids@.len() > 0,
            }
        }),
        r matches RuleApplyStart::Fail(m) ==> m@ == unavailable_apply_msg(),
{
    if !config.hymofs.enabled {
        return RuleApplyStart::Disabled;
    }
    let requested = hymofs_runtime_requested(plan, config, user_hide_rule_count);
    if !available {
        if mount_mapping_requested(plan) {
            return RuleApplyStart::Fail(String::from_str("HymoFS became unavailable before rule application"));
        }
        return RuleApplyStart::Unavailable;
    }
    RuleApplyStart::Proceed { runtime_requested: requested, compile: mount_mapping_requested(plan) }
}

/// Whether resetting goes on: HymoFS is enabled and can operate.
pub fn reset_allowed(config: &Config, available: bool) -> (r: bool)
    ensures
        r == (config.hymofs.enabled && available),
{
    config.hymofs.enabled && available
}

/// What one entry of a module's mirror contributes to the rules.
#[derive(Debug, Clone, Copy, PartialEq, Eq, Structural)]
pub enum CompileStep {
    /// Nothing: not a HymoFS path, a `.replace` marker, or a directory with
    /// no directory to merge into.
    Skip,
    /// Merge the directory into its existing target; its subtree is not
    /// walked further.
    Merge,
    /// A link to a directory that already exists: left alone.
    SkipLinkToDir,
    /// Hide the target.
    Hide,
    /// Add the entry at its target with this `d_type`.
    Add(i32),
}

/// The step for an entry whose path below the module root is `relative`;
/// `dtype` is what `build_dtype` gives the entry.
pub open spec fn compile_step(
    rules: ModuleRules,
    relative: Seq<char>,
    file_name: Seq<char>,
    kind: EntryKind,
    target_exists: bool,
    target_is_dir: bool,
    dtype: (i32, bool),
) -> CompileStep {
    if rules.mode_for(relative) != MountMode::Hymofs {
        CompileStep::Skip
    } else if file_name == defs::REPLACE_DIR_FILE_NAME@ {
        CompileStep::Skip
    } else if kind == EntryKind::Dir {
        if target_is_dir {
            CompileStep::Merge
        } else {
            CompileStep::Skip
        }
    } else if kind == EntryKind::Symlink && target_exists && target_is_dir {
        CompileStep::SkipLinkToDir
    } else if dtype.1 {
        CompileStep::Hide
    } else {
        CompileStep::Add(dtype.0)
    }
}

pub fn compile_entry(
    rules: &ModuleRules,
    relative: &str,
    file_name: &str,
    kind: EntryKind,
    target_exists: bool,
    target_is_dir: bool,
    dtype: (i32, bool),
) -> (r: CompileStep)
    requires
        rules.well_formed(),
    ensures
        r == compile_step(*rules, relative@, file_name@, kind, target_exists, target_is_dir, dtype),
{
    let mode = rules.get_mode(relative);
    proof {
        crate::domain::lemma_mode_for(*rules, relative@, mode);
    }
    if mode != MountMode::Hymofs {
        return CompileStep::Skip;
    }
    let name = String::from_str(file_name);
    let marker = String::from_str(defs::REPLACE_DIR_FILE_NAME);
    if name == marker {
        return CompileStep::Skip;
    }
    if kind == EntryKind::Dir {
        if target_is_dir {
            return CompileStep::Merge;
        }
        return CompileStep::Skip;
    }
    if kind == EntryKind::Symlink && target_exists && target_is_dir {
        return CompileStep::SkipLinkToDir;
    }
    if dtype.1 {
        CompileStep::Hide
    } else {
        CompileStep::Add(dtype.0)
    }
}

/// The rules compiled from the mirror.
#[derive(Debug)]
pub struct CompiledRules {
    pub add_rules: Vec<HymofsAddRule>,
    pub merge_rules: Vec<HymofsMergeRule>,
    pub hide_rules: Vec<String>,
}

impl CompiledRules {
    pub fn new() -> (r: Self)
        ensures
            r.add_rules@.len() == 0,
            r.merge_rules@.len() == 0,
            r.hide_rules@.len() == 0,
    {
        CompiledRules { add_rules: Vec::new(), merge_rules: Vec::new(), hide_rules: Vec::new() }
    }

    /// `after` is `before` with what `step` contributes for the entry at
    /// `source` whose target is `target`: a merge rule, a hidden target or
    /// an added rule, appended; nothing for the other steps.
    pub open spec fn recorded(before: CompiledRules, after: CompiledRules, step: CompileStep, target: Seq<char>, source: Seq<char>) -> bool {
        match step {
            CompileStep::Merge => {
                &&& after.merge_rules@.len() == before.merge_rules@.len() + 1
                &&& after.merge_rules@.drop_last() == before.merge_rules@
                &&& after.merge_rules@.last().target@ == target
                &&& after.merge_rules@.last().source@ == source
                &&& after.add_rules@ == before.add_rules@
                &&& after.hide_rules@ == before.hide_rules@
            },
            CompileStep::Hide => {
                &&& after.hide_rules@.len() == before.hide_rules@.len() + 1
                &&& after.hide_rules@.drop_last() == before.hide_rules@
                &&& after.hide_rules@.last()@ == target
                &&& after.add_rules@ == before.add_rules@
                &&& after.merge_rules@ == before.merge_rules@
            },
            CompileStep::Add(d) => {
                &&& after.add_rules@.len() == before.add_rules@.len() + 1
                &&& after.add_rules@.drop_last() == before.add_rules@
                &&& after.add_rules@.last().target@ == target
                &&& after.add_rules@.last().source@ == source
                &&& after.add_rules@.last().file_type == d
                &&& after.merge_rules@ == before.merge_rules@
                &&& after.hide_rules@ == before.hide_rules@
            },
            _ => {
                &&& after.add_rules@ == before.add_rules@
                &&& after.merge_rules@ == before.merge_rules@
                &&& after.hide_rules@ == before.hide_rules@
            },
        }
    }

    /// Records what `step` contributes for the entry at `source` whose
    /// target is `target`.
    pub fn record(&mut self, step: CompileStep, target: String, source: String)
        ensures
            CompiledRules::recorded(*old(self), *final(self), step, target@, source@),
    {
        match step {
            CompileStep::Merge => {
                self.merge_rules.push(HymofsMergeRule { target, source });
                assert(self.merge_rules@.drop_last() =~= old(self).merge_rules@);
            },
            CompileStep::Hide => {
                self.hide_rules.push(target);
                assert(self.hide_rules@.drop_last() =~= old(self).hide_rules@);
            },
            CompileStep::Add(d) => {
                self.add_rules.push(HymofsAddRule { target, source, file_type: d });
                assert(self.add_rules@.drop_last() =~= old(self).add_rules@);
            },
            _ => {},
        }
    }
}

/// The modules whose mirrors are compiled, last module first: the indices
/// of the modules the plan hands to HymoFS, in reverse order.
pub open spec fn compile_order(ids: Seq<Seq<char>>, active: Set<Seq<char>>) -> Seq<int>
    decreases ids.len(),
{
    if ids.len() == 0 {
        Seq::empty()
    } else {
        let rest = compile_order(ids.drop_last(), active);
        if active.contains(ids.last()) {
            seq![ids.len() - 1] + rest
        } else {
            rest
        }
    }
}

pub fn compile_module_order(module_ids: &Vec<String>, active_ids: &Vec<String>) -> (r: Vec<usize>)
    ensures
        r@.map_values(|i: usize| i as int) == compile_order(
            string_views(module_ids@),
            string_views(active_ids@).to_set(),
        ),
{
    let ghost ids = string_views(module_ids@);
    let ghost act = string_views(active_ids@).to_set();
    let mut out: Vec<usize> = Vec::new();
    let mut i: usize = module_ids.len();
    assert(ids.take(ids.len() as int) =~= ids);
    while i > 0
        invariant
            i <= module_ids@.len(),
            ids == string_views(module_ids@),
            act == string_views(active_ids@).to_set(),
            out@.map_values(|k: usize| k as int) + compile_order(ids.take(i as int), act) == compile_order(ids, act),
        decreases i,
    {
        let j = i - 1;
        proof {
            assert(ids.take(i as int).drop_last() =~= ids.take(j as int));
            assert(ids.take(i as int).last() == ids[j as int]);
        }
        if contains_string(active_ids, &module_ids[j]) {
            let ghost before = out@.map_values(|k: usize| k as int);
            out.push(j);
            assert(out@.map_values(|k: usize| k as int) =~= before.push(j as int));
            assert(before.push(j as int) + compile_order(ids.take(j as int), act) =~= before + (seq![j as int] + compile_order(ids.take(j as int), act)));
        }
        i = j;
    }
    assert(ids.take(0) =~= Seq::<Seq<char>>::empty());
    assert(out@.map_values(|k: usize| k as int) + Seq::<int>::empty() =~= out@.map_values(|k: usize| k as int));
    out
}

} // verus!
