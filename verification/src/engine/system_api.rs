//! The data behind the JSON answers of the `api` commands: partitions and
//! their mounts, the HymoFS version report and error payloads.
use vstd::prelude::*;

use crate::engine::api::{
    extract_active_module_ids, mismatch_message, mismatch_message_spec, opt_view,
    rule_module_ids, entry_views, HymoFsStatus, HymofsRuleEntry, HYMO_PROTOCOL_VERSION,
};
use crate::conf::schema::Config;
use crate::engine::sync::sync_partition_set;
use crate::paths::{path_parts, same_parts, same_path};
use crate::strset::{lemma_sorted_seq, sorted_seq, sorted_unique, string_views, strictly_sorted};
use crate::text::{char_views, chars_of, split_on, split_on_chars, split_ws, split_ws_chars, string_from_chars, trim, trim_chars};

verus! {

/// An error as the `api` commands report it.
#[derive(Debug, Clone)]
pub struct ErrorPayload {
    pub kind: &'static str,
    pub error: String,
    pub code: Option<String>,
}

pub fn error_payload(message: String) -> (r: ErrorPayload)
    ensures
        r.kind@ == "error"@,
        r.error@ == message@,
        r.code is None,
{
    ErrorPayload { kind: "error", error: message, code: None }
}

/// One line of the mount table.
#[derive(Debug, Clone)]
pub struct MountEntry {
    pub mount_point: String,
    pub fs_type: String,
    pub is_read_only: bool,
}

/// The options list holds `ro`.
pub open spec fn read_only(options: Seq<char>) -> bool {
    split_on(options, ',').contains("ro"@)
}

/// The entry of a mount table line: device, mount point, type and options
/// are its first four fields; a shorter line gives none.
pub open spec fn mount_line_entry(line: Seq<char>) -> Option<(Seq<char>, Seq<char>, bool)> {
    let w = split_ws(line);
    if w.len() >= 4 {
        Some((w[1], w[2], read_only(w[3])))
    } else {
        None
    }
}

pub open spec fn mount_entries_spec(lines: Seq<Seq<char>>) -> Seq<(Seq<char>, Seq<char>, bool)>
    decreases lines.len(),
{
    if lines.len() == 0 {
        Seq::empty()
    } else {
        let p = mount_entries_spec(lines.drop_last());
        match mount_line_entry(lines.last()) {
            Some(e) => p.push(e),
            None => p,
        }
    }
}

pub open spec fn mount_entry_views(v: Seq<MountEntry>) -> Seq<(Seq<char>, Seq<char>, bool)> {
    v.map_values(|e: MountEntry| (e.mount_point@, e.fs_type@, e.is_read_only))
}

fn has_ro(options: &Vec<char>) -> (r: bool)
    ensures
        r == read_only(options@),
{
    let parts = split_on_chars(options, ',');
    let ghost pv = char_views(parts@);
    let mut i: usize = 0;
    while i < parts.len()
        invariant
            i <= parts@.len(),
            pv == char_views(parts@),
            pv == split_on(options@, ','),
            forall|k: int| 0 <= k < i ==> pv[k] != "ro"@,
        decreases parts@.len() - i,
    {
        let p = &parts[i];
        if p.len() == 2 && p[0] == 'r' && p[1] == 'o' {
            proof {
                reveal_strlit("ro");
                assert(p@ =~= "ro"@);
                assert(pv[i as int] == "ro"@);
            }
            return true;
        }
        proof {
            reveal_strlit("ro");
            if pv[i as int] == "ro"@ {
                assert(p@.len() == 2 && p@[0] == 'r' && p@[1] == 'o');
            }
        }
        i = i + 1;
    }
    false
}

/// The entries of a mount table (`/proc/self/mounts`).
pub fn parse_mount_entries(content: &str) -> (r: Vec<MountEntry>)
    ensures
        mount_entry_views(r@) == mount_entries_spec(split_on(content@, '\n')),
{
    let v = chars_of(content);
    let lines = split_on_chars(&v, '\n');
    let ghost lv = char_views(lines@);
    let mut out: Vec<MountEntry> = Vec::new();
    let mut i: usize = 0;
    while i < lines.len()
        invariant
            i <= lines@.len(),
            lv == char_views(lines@),
            lv == split_on(content@, '\n'),
            mount_entry_views(out@) == mount_entries_spec(lv.take(i as int)),
        decreases lines@.len() - i,
    {
        proof {
            assert(lv.take(i + 1).drop_last() =~= lv.take(i as int));
            assert(lv.take(i + 1).last() == lines@[i as int]@);
        }
        let w = split_ws_chars(&lines[i]);
        if w.len() >= 4 {
            let e = MountEntry {
                mount_point: string_from_chars(&w[1]),
                fs_type: string_from_chars(&w[2]),
                is_read_only: has_ro(&w[3]),
            };
            let ghost before = mount_entry_views(out@);
            out.push(e);
            assert(mount_entry_views(out@) =~= before.push((e.mount_point@, e.fs_type@, e.is_read_only)));
        }
        i = i + 1;
    }
    assert(lv.take(lines@.len() as int) =~= lv);
    out
}

/// A partition as the `api partitions` command reports it.
#[derive(Debug, Clone, PartialEq, Eq)]
pub struct PartitionInfo {
    pub name: String,
    pub mount_point: String,
    pub fs_type: String,
    pub is_read_only: bool,
    pub exists_as_symlink: bool,
}

/// What the filesystem says of `/<name>`: whether it exists, whether it is
/// a link, and where the link leads (the path itself when it is no link).
#[derive(Debug, Clone)]
pub struct PartitionProbe {
    pub name: String,
    pub exists: bool,
    pub is_symlink: bool,
    pub resolved: String,
}

/// The first mount entry at `mount_point` or at `resolved` (compared as
/// paths).
pub open spec fn first_mount_at(entries: Seq<MountEntry>, mount_point: Seq<char>, resolved: Seq<char>) -> Option<int> {
    if exists|i: int| 0 <= i < entries.len() && (same_path(entries[i].mount_point@, mount_point) || same_path(entries[i].mount_point@, resolved)) {
        Some(choose|i: int| 0 <= i < entries.len() && (same_path(entries[i].mount_point@, mount_point) || same_path(entries[i].mount_point@, resolved))
            && forall|j: int| 0 <= j < i ==> !(same_path(entries[j].mount_point@, mount_point) || same_path(entries[j].mount_point@, resolved)))
    } else {
        None
    }
}

/// `info` reports probe `p` against the mount table.
pub open spec fn partition_fits(info: PartitionInfo, p: PartitionProbe, entries: Seq<MountEntry>) -> bool {
    let mp = "/"@ + p.name@;
    &&& info.name@ == p.name@
    &&& info.mount_point@ == mp
    &&& info.exists_as_symlink == p.is_symlink
    &&& match first_mount_at(entries, mp, p.resolved@) {
        Some(i) => info.fs_type@ == entries[i].fs_type@ && info.is_read_only == entries[i].is_read_only,
        None => info.fs_type@.len() == 0 && !info.is_read_only,
    }
}

/// The probes of existing partitions, in order.
pub open spec fn existing(probes: Seq<PartitionProbe>) -> Seq<PartitionProbe>
    decreases probes.len(),
{
    if probes.len() == 0 {
        Seq::empty()
    } else {
        let p = existing(probes.drop_last());
        if probes.last().exists {
            p.push(probes.last())
        } else {
            p
        }
    }
}

fn find_mount(entries: &Vec<MountEntry>, mount_point: &str, resolved: &str) -> (r: Option<usize>)
    ensures
        r matches Some(i) ==> i < entries@.len(),
        match r {
            Some(i) => first_mount_at(entries@, mount_point@, resolved@) == Some(i as int),
            None => first_mount_at(entries@, mount_point@, resolved@) is None,
        },
{
    let a = path_parts(mount_point);
    let b = path_parts(resolved);
    let mut i: usize = 0;
    while i < entries.len()
        invariant
            i <= entries@.len(),
            a.view_of() == crate::paths::path_view(mount_point@),
            b.view_of() == crate::paths::path_view(resolved@),
            forall|j: int| 0 <= j < i ==> !(same_path(entries@[j].mount_point@, mount_point@) || same_path(entries@[j].mount_point@, resolved@)),
        decreases entries@.len() - i,
    {
        let here = path_parts(entries[i].mount_point.as_str());
        if same_parts(&here, &a) || same_parts(&here, &b) {
            proof {
                let c = choose|c: int| 0 <= c < entries@.len() && (same_path(entries@[c].mount_point@, mount_point@) || same_path(entries@[c].mount_point@, resolved@))
                    && forall|j: int| 0 <= j < c ==> !(same_path(entries@[j].mount_point@, mount_point@) || same_path(entries@[j].mount_point@, resolved@));
                assert(c == i);
            }
            return Some(i);
        }
        i = i + 1;
    }
    None
}

#[verifier::rlimit(30)]
fn partition_info(p: &PartitionProbe, entries: &Vec<MountEntry>) -> (r: PartitionInfo)
    ensures
        partition_fits(r, *p, entries@),
{
    let mut mp = String::from_str("/");
    mp.append(p.name.as_str());
    let found = find_mount(entries, mp.as_str(), p.resolved.as_str());
    let (fs_type, ro) = match found {
        Some(j) => (entries[j].fs_type.clone(), entries[j].is_read_only),
        None => (String::new(), false),
    };
    PartitionInfo {
        name: p.name.clone(),
        mount_point: mp,
        fs_type,
        is_read_only: ro,
        exists_as_symlink: p.is_symlink,
    }
}

/// The names the probes are for, in order.
pub open spec fn probe_names(probes: Seq<PartitionProbe>) -> Seq<Seq<char>> {
    probes.map_values(|p: PartitionProbe| p.name@)
}

/// The partitions that exist, each reported against the mount table: the
/// probes are those of the managed partitions in name order, and
/// `entries` is the mount table, `None` when it could not be read (then
/// nothing is reported).
pub fn build_partitions_payload(
    config: &Config,
    probes: &Vec<PartitionProbe>,
    entries: &Option<Vec<MountEntry>>,
) -> (r: Vec<PartitionInfo>)
    requires
        probe_names(probes@) == sorted_seq(sync_partition_set(*config)),
    ensures
        entries is None ==> r@.len() == 0,
        entries matches Some(e) ==> {
            &&& r@.len() == existing(probes@).len()
            &&& forall|k: int| 0 <= k < r@.len() ==> partition_fits(#[trigger] r@[k], existing(probes@)[k], e@)
        },
{
    match entries {
        None => Vec::new(),
        Some(e) => partitions_of(probes, e),
    }
}

fn partitions_of(probes: &Vec<PartitionProbe>, entries: &Vec<MountEntry>) -> (r: Vec<PartitionInfo>)
    ensures
        r@.len() == existing(probes@).len(),
        forall|k: int| 0 <= k < r@.len() ==> partition_fits(#[trigger] r@[k], existing(probes@)[k], entries@),
{
    let mut out: Vec<PartitionInfo> = Vec::new();
    let mut i: usize = 0;
    while i < probes.len()
        invariant
            i <= probes@.len(),
            out@.len() == existing(probes@.take(i as int)).len(),
            forall|k: int| 0 <= k < out@.len() ==> partition_fits(#[trigger] out@[k], existing(probes@.take(i as int))[k], entries@),
        decreases probes@.len() - i,
    {
        proof {
            assert(probes@.take(i + 1).drop_last() =~= probes@.take(i as int));
            assert(probes@.take(i + 1).last() == probes@[i as int]);
        }
        let p = &probes[i];
        if p.exists {
            let info = partition_info(p, entries);
            let ghost before = out@;
            out.push(info);
            proof {
                let ex = existing(probes@.take(i + 1));
                assert(ex == existing(probes@.take(i as int)).push(*p));
                assert forall|k: int| 0 <= k < out@.len() implies partition_fits(#[trigger] out@[k], ex[k], entries@) by {
                    if k < before.len() {
                        assert(out@[k] == before[k]);
                    }
                }
            }
        }
        i = i + 1;
    }
    assert(probes@.take(probes@.len() as int) =~= probes@);
    out
}

/// The label of the SELinux mode read from `enforce`.
pub open spec fn selinux_label_spec(text: Seq<char>) -> Seq<char> {
    let t = trim(text);
    if t == "0"@ {
        "Permissive"@
    } else if t == "1"@ {
        "Enforcing"@
    } else if t.len() > 0 {
        t
    } else {
        "Unknown"@
    }
}

pub fn selinux_label(text: &str) -> (r: String)
    ensures
        r@ == selinux_label_spec(text@),
{
    let v = chars_of(text);
    let t = trim_chars(&v);
    let s = string_from_chars(&t);
    if s == String::from_str("0") {
        String::from_str("Permissive")
    } else if s == String::from_str("1") {
        String::from_str("Enforcing")
    } else if t.len() > 0 {
        s
    } else {
        String::from_str("Unknown")
    }
}

/// The mode shown for the storage: `unknown` when none was recorded.
pub fn storage_mode_label(mode: &str) -> (r: String)
    ensures
        r@ == (if mode@.len() == 0 { "unknown"@ } else { mode@ }),
{
    if mode.is_empty() {
        String::from_str("unknown")
    } else {
        String::from_str(mode)
    }
}

/// What the storage of a run looks like: where it is mounted and what
/// `statvfs` gave for it. The sizes are turned into text and the use into a
/// percentage where the report is printed.
#[derive(Debug, Clone)]
pub struct StorageReport {
    pub path: String,
    pub pid: u32,
    pub error: Option<String>,
    pub warning: Option<String>,
    /// Total, used and free bytes.
    pub usage: Option<(u64, u64, u64)>,
    pub mode: String,
}

pub open spec fn storage_mode_text(mode: Seq<char>) -> Seq<char> {
    if mode.len() == 0 { "unknown"@ } else { mode }
}

/// The storage report of a run whose mount point is `mount_point`:
/// `Not mounted` when there is none or it does not exist, else what
/// `statvfs` answered (`usage`), with a warning on a zero-sized storage.
pub fn build_storage_report(
    mount_point: &str,
    exists: bool,
    pid: u32,
    storage_mode: &str,
    usage: Result<(u64, u64, u64), String>,
) -> (r: StorageReport)
    ensures
        r.path@ == mount_point@,
        r.pid == pid,
        r.mode@ == storage_mode_text(storage_mode@),
        mount_point@.len() == 0 || !exists ==> {
            &&& r.error matches Some(e) && e@ == "Not mounted"@
            &&& r.warning is None
            &&& r.usage is None
        },
        mount_point@.len() > 0 && exists ==> match usage {
            Ok((total, used, free)) => {
                &&& r.error is None
                &&& r.usage == Some((total, used, free))
                &&& (total == 0 ==> (r.warning matches Some(w) && w@ == "Zero size detected"@))
                &&& (total != 0 ==> r.warning is None)
            },
            Err(e) => {
                &&& r.error matches Some(m) && m@ == "statvfs failed: "@ + e@
                &&& r.warning is None
                &&& r.usage is None
            },
        },
{
    let mode = storage_mode_label(storage_mode);
    let path = String::from_str(mount_point);
    if mount_point.is_empty() || !exists {
        return StorageReport {
            path,
            pid,
            error: Some(String::from_str("Not mounted")),
            warning: None,
            usage: None,
            mode,
        };
    }
    match usage {
        Ok((total, used, free)) => {
            let warning = if total == 0 {
                Some(String::from_str("Zero size detected"))
            } else {
                None
            };
            StorageReport { path, pid, error: None, warning, usage: Some((total, used, free)), mode }
        },
        Err(e) => StorageReport {
            path,
            pid,
            error: Some(crate::text::concat_str("statvfs failed: ", e.as_str())),
            warning: None,
            usage: None,
            mode,
        },
    }
}

/// The HymoFS version report.
#[derive(Debug, Clone)]
pub struct HymofsVersionInfo {
    pub protocol_version: i32,
    pub kernel_version: i32,
    pub hymofs_available: bool,
    pub protocol_mismatch: bool,
    pub mismatch_message: Option<String>,
    pub active_modules: Vec<String>,
    pub mount_base: String,
    pub mirror_path: String,
}

/// The version report: when HymoFS is disabled, only this side's protocol;
/// else the kernel's status and protocol, and the active modules, those of
/// the state record when it names any, else those the kernel's rules name.
pub fn build_hymofs_version_payload(
    enabled: bool,
    mirror_path: &str,
    state_hymofs_modules: &Vec<String>,
    mount_point: &str,
    status: HymoFsStatus,
    kernel_version: Option<i32>,
    active_rules: &Vec<HymofsRuleEntry>,
) -> (r: HymofsVersionInfo)
    ensures
        r.protocol_version == HYMO_PROTOCOL_VERSION,
        r.mount_base@ == mount_point@,
        r.mirror_path@ == mirror_path@,
        !enabled ==> {
            &&& r.kernel_version == 0
            &&& !r.hymofs_available
            &&& !r.protocol_mismatch
            &&& r.mismatch_message is None
            &&& r.active_modules@.len() == 0
        },
        enabled ==> {
            &&& r.kernel_version == crate::engine::api::unwrap_or_zero(kernel_version)
            &&& r.hymofs_available == (status == HymoFsStatus::Available)
            &&& r.protocol_mismatch == (kernel_version matches Some(v) && v != HYMO_PROTOCOL_VERSION)
            &&& opt_view(r.mismatch_message) == mismatch_message_spec(status, kernel_version)
            &&& string_views(r.active_modules@) == (if state_hymofs_modules@.len() > 0 {
                sorted_seq(string_views(state_hymofs_modules@).to_set())
            } else {
                sorted_seq(rule_module_ids(entry_views(active_rules@), mirror_path@))
            })
        },
{
    if !enabled {
        return HymofsVersionInfo {
            protocol_version: HYMO_PROTOCOL_VERSION,
            kernel_version: 0,
            hymofs_available: false,
            protocol_mismatch: false,
            mismatch_message: None,
            active_modules: Vec::new(),
            mount_base: String::from_str(mount_point),
            mirror_path: String::from_str(mirror_path),
        };
    }
    let active_modules = if state_hymofs_modules.len() > 0 {
        let m = sorted_unique(state_hymofs_modules);
        proof {
            lemma_sorted_seq(string_views(m@));
        }
        m
    } else {
        let m = extract_active_module_ids(active_rules, mirror_path);
        proof {
            lemma_sorted_seq(string_views(m@));
        }
        m
    };
    let mismatch = match kernel_version {
        Some(v) => v != HYMO_PROTOCOL_VERSION,
        None => false,
    };
    HymofsVersionInfo {
        protocol_version: HYMO_PROTOCOL_VERSION,
        kernel_version: match kernel_version {
            Some(v) => v,
            None => 0,
        },
        hymofs_available: status == HymoFsStatus::Available,
        protocol_mismatch: mismatch,
        mismatch_message: mismatch_message(status, kernel_version),
        active_modules,
        mount_base: String::from_str(mount_point),
        mirror_path: String::from_str(mirror_path),
    }
}

} // verus!
