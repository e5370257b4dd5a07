//! Counters of what a boot mounted, and the state record written after it.
use vstd::prelude::*;

use crate::engine::executor::ExecutionResult;
use crate::engine::inventory::reserved_dir;
use crate::engine::inventory::is_reserved_module_dir;
use crate::strset::{contains_string, extend_sorted, insert_sorted, lemma_sorted_seq, sorted_seq, sorted_unique, string_views, strictly_sorted};

verus! {

/// How many mounts of each kind a boot made.
#[derive(Debug, Clone, Copy, PartialEq, Eq, Structural)]
pub struct MountStatistics {
    pub total_mounts: usize,
    pub successful_mounts: usize,
    pub failed_mounts: usize,
    pub tmpfs_created: usize,
    pub files_mounted: usize,
    pub dirs_mounted: usize,
    pub symlinks_created: usize,
    pub overlayfs_mounts: usize,
    pub ignored_entries: usize,
}

impl MountStatistics {
    pub open spec fn zero() -> MountStatistics {
        MountStatistics {
            total_mounts: 0,
            successful_mounts: 0,
            failed_mounts: 0,
            tmpfs_created: 0,
            files_mounted: 0,
            dirs_mounted: 0,
            symlinks_created: 0,
            overlayfs_mounts: 0,
            ignored_entries: 0,
        }
    }

    /// A mount that counts towards the totals can still be recorded.
    pub open spec fn can_record_mount(&self) -> bool {
        self.total_mounts < usize::MAX && self.successful_mounts < usize::MAX
    }

    /// The field-wise sums of `a` and `b` all fit in `usize`.
    pub open spec fn can_merge(a: MountStatistics, b: MountStatistics) -> bool {
        &&& a.total_mounts + b.total_mounts <= usize::MAX
        &&& a.successful_mounts + b.successful_mounts <= usize::MAX
        &&& a.failed_mounts + b.failed_mounts <= usize::MAX
        &&& a.tmpfs_created + b.tmpfs_created <= usize::MAX
        &&& a.files_mounted + b.files_mounted <= usize::MAX
        &&& a.dirs_mounted + b.dirs_mounted <= usize::MAX
        &&& a.symlinks_created + b.symlinks_created <= usize::MAX
        &&& a.overlayfs_mounts + b.overlayfs_mounts <= usize::MAX
        &&& a.ignored_entries + b.ignored_entries <= usize::MAX
    }

    /// The field-wise sums of `a` and `b`.
    pub open spec fn sum(a: MountStatistics, b: MountStatistics) -> MountStatistics {
        MountStatistics {
            total_mounts: (a.total_mounts + b.total_mounts) as usize,
            successful_mounts: (a.successful_mounts + b.successful_mounts) as usize,
            failed_mounts: (a.failed_mounts + b.failed_mounts) as usize,
            tmpfs_created: (a.tmpfs_created + b.tmpfs_created) as usize,
            files_mounted: (a.files_mounted + b.files_mounted) as usize,
            dirs_mounted: (a.dirs_mounted + b.dirs_mounted) as usize,
            symlinks_created: (a.symlinks_created + b.symlinks_created) as usize,
            overlayfs_mounts: (a.overlayfs_mounts + b.overlayfs_mounts) as usize,
            ignored_entries: (a.ignored_entries + b.ignored_entries) as usize,
        }
    }

    /// A bind-mounted file.
    pub fn record_file(&mut self)
        requires
            old(self).can_record_mount(),
            old(self).files_mounted < usize::MAX,
        ensures
            *final(self) == (MountStatistics {
                total_mounts: (old(self).total_mounts + 1) as usize,
                successful_mounts: (old(self).successful_mounts + 1) as usize,
                files_mounted: (old(self).files_mounted + 1) as usize,
                ..*old(self)
            }),
    {
        self.total_mounts += 1;
        self.successful_mounts += 1;
        self.files_mounted += 1;
    }

    /// A bind-mounted directory.
    pub fn record_dir(&mut self)
        requires
            old(self).can_record_mount(),
            old(self).dirs_mounted < usize::MAX,
        ensures
            *final(self) == (MountStatistics {
                total_mounts: (old(self).total_mounts + 1) as usize,
                successful_mounts: (old(self).successful_mounts + 1) as usize,
                dirs_mounted: (old(self).dirs_mounted + 1) as usize,
                ..*old(self)
            }),
    {
        self.total_mounts += 1;
        self.successful_mounts += 1;
        self.dirs_mounted += 1;
    }

    /// A symbolic link created in place.
    pub fn record_symlink(&mut self)
        requires
            old(self).can_record_mount(),
            old(self).symlinks_created < usize::MAX,
        ensures
            *final(self) == (MountStatistics {
                total_mounts: (old(self).total_mounts + 1) as usize,
                successful_mounts: (old(self).successful_mounts + 1) as usize,
                symlinks_created: (old(self).symlinks_created + 1) as usize,
                ..*old(self)
            }),
    {
        self.total_mounts += 1;
        self.successful_mounts += 1;
        self.symlinks_created += 1;
    }

    /// A mount that failed.
    pub fn record_failed(&mut self)
        requires
            old(self).total_mounts < usize::MAX,
            old(self).failed_mounts < usize::MAX,
        ensures
            *final(self) == (MountStatistics {
                total_mounts: (old(self).total_mounts + 1) as usize,
                failed_mounts: (old(self).failed_mounts + 1) as usize,
                ..*old(self)
            }),
    {
        self.total_mounts += 1;
        self.failed_mounts += 1;
    }

    /// A tmpfs created to stage a directory.
    pub fn record_tmpfs(&mut self)
        requires
            old(self).tmpfs_created < usize::MAX,
        ensures
            *final(self) == (MountStatistics {
                tmpfs_created: (old(self).tmpfs_created + 1) as usize,
                ..*old(self)
            }),
    {
        self.tmpfs_created += 1;
    }

    /// An overlay mounted over a partition directory.
    pub fn record_overlay_mount(&mut self)
        requires
            old(self).can_record_mount(),
            old(self).overlayfs_mounts < usize::MAX,
        ensures
            *final(self) == (MountStatistics {
                total_mounts: (old(self).total_mounts + 1) as usize,
                successful_mounts: (old(self).successful_mounts + 1) as usize,
                overlayfs_mounts: (old(self).overlayfs_mounts + 1) as usize,
                ..*old(self)
            }),
    {
        self.total_mounts += 1;
        self.successful_mounts += 1;
        self.overlayfs_mounts += 1;
    }

    /// An entry that was left alone.
    pub fn record_ignored(&mut self)
        requires
            old(self).ignored_entries < usize::MAX,
        ensures
            *final(self) == (MountStatistics {
                ignored_entries: (old(self).ignored_entries + 1) as usize,
                ..*old(self)
            }),
    {
        self.ignored_entries += 1;
    }

    /// Adds every counter of `other` to this one.
    pub fn merge(&mut self, other: &Self)
        requires
            MountStatistics::can_merge(*old(self), *other),
        ensures
            *final(self) == MountStatistics::sum(*old(self), *other),
    {
        self.total_mounts += other.total_mounts;
        self.successful_mounts += other.successful_mounts;
        self.failed_mounts += other.failed_mounts;
        self.tmpfs_created += other.tmpfs_created;
        self.files_mounted += other.files_mounted;
        self.dirs_mounted += other.dirs_mounted;
        self.symlinks_created += other.symlinks_created;
        self.overlayfs_mounts += other.overlayfs_mounts;
        self.ignored_entries += other.ignored_entries;
    }
}

impl Default for MountStatistics {
    fn default() -> (r: Self)
        ensures
            r == MountStatistics::zero(),
    {
        MountStatistics {
            total_mounts: 0,
            successful_mounts: 0,
            failed_mounts: 0,
            tmpfs_created: 0,
            files_mounted: 0,
            dirs_mounted: 0,
            symlinks_created: 0,
            overlayfs_mounts: 0,
            ignored_entries: 0,
        }
    }
}

/// Merging is commutative: the order in which two sets of counters are
/// added does not change the totals.
pub proof fn lemma_merge_commutes(a: MountStatistics, b: MountStatistics)
    requires
        MountStatistics::can_merge(a, b),
    ensures
        MountStatistics::can_merge(b, a),
        MountStatistics::sum(a, b) == MountStatistics::sum(b, a),
{
}

/// Merging the zero counters changes nothing.
pub proof fn lemma_merge_zero(a: MountStatistics)
    ensures
        MountStatistics::can_merge(a, MountStatistics::zero()),
        MountStatistics::sum(a, MountStatistics::zero()) == a,
{
}

/// Every recorded mount either succeeded or failed: when that holds of two
/// sets of counters, it holds of their merge.
pub proof fn lemma_merge_keeps_balance(a: MountStatistics, b: MountStatistics)
    requires
        MountStatistics::can_merge(a, b),
        a.total_mounts == a.successful_mounts + a.failed_mounts,
        b.total_mounts == b.successful_mounts + b.failed_mounts,
    ensures
        MountStatistics::sum(a, b).total_mounts == MountStatistics::sum(a, b).successful_mounts
            + MountStatistics::sum(a, b).failed_mounts,
{
}

/// What the HymoFS runtime reported at the end of a boot.
#[derive(Debug, Clone)]
pub struct HymoFsRuntimeInfo {
    pub status: String,
    pub available: bool,
    pub lkm_loaded: bool,
    pub lkm_autoload: bool,
    pub lkm_kmi_override: String,
    pub lkm_current_kmi: String,
    pub lkm_dir: String,
    pub protocol_version: Option<i32>,
    pub feature_bits: Option<i32>,
    pub feature_names: Vec<String>,
    pub hooks: Vec<String>,
    pub rule_count: usize,
    pub user_hide_rule_count: usize,
    pub mirror_path: String,
}

impl Default for HymoFsRuntimeInfo {
    fn default() -> (r: Self)
        ensures
            r.status@.len() == 0 && !r.available && !r.lkm_loaded && !r.lkm_autoload
                && r.lkm_kmi_override@.len() == 0 && r.lkm_current_kmi@.len() == 0
                && r.lkm_dir@.len() == 0 && r.protocol_version is None && r.feature_bits is None
                && r.feature_names@.len() == 0 && r.hooks@.len() == 0 && r.rule_count == 0
                && r.user_hide_rule_count == 0 && r.mirror_path@.len() == 0,
    {
        HymoFsRuntimeInfo {
            status: String::new(),
            available: false,
            lkm_loaded: false,
            lkm_autoload: false,
            lkm_kmi_override: String::new(),
            lkm_current_kmi: String::new(),
            lkm_dir: String::new(),
            protocol_version: None,
            feature_bits: None,
            feature_names: Vec::new(),
            hooks: Vec::new(),
            rule_count: 0,
            user_hide_rule_count: 0,
            mirror_path: String::new(),
        }
    }
}

/// The state record written after a boot.
#[derive(Debug)]
pub struct RuntimeState {
    pub timestamp: u64,
    pub pid: u32,
    pub storage_mode: String,
    pub mount_point: String,
    pub overlay_modules: Vec<String>,
    pub magic_modules: Vec<String>,
    pub hymofs_modules: Vec<String>,
    pub mount_error_modules: Vec<String>,
    /// Reasons by module id, in id order.
    pub mount_error_reasons: Vec<(String, String)>,
    pub skip_mount_modules: Vec<String>,
    pub active_mounts: Vec<String>,
    pub tmpfs_xattr_supported: bool,
    pub mount_stats: MountStatistics,
    pub hymofs: HymoFsRuntimeInfo,
    pub log_file: String,
}

/// The ids of modules some strategy mounted.
pub open spec fn mounted_set(s: RuntimeState) -> Set<Seq<char>> {
    string_views(s.overlay_modules@).to_set().union(string_views(s.magic_modules@).to_set()).union(
        string_views(s.hymofs_modules@).to_set(),
    )
}

/// The ids not in `mounted`, in order.
pub open spec fn unmounted_ids(ids: Seq<Seq<char>>, mounted: Set<Seq<char>>) -> Seq<Seq<char>>
    decreases ids.len(),
{
    if ids.len() == 0 {
        Seq::empty()
    } else {
        let p = unmounted_ids(ids.drop_last(), mounted);
        if mounted.contains(ids.last()) {
            p
        } else {
            p.push(ids.last())
        }
    }
}

/// The reasons of modules not in `mounted`, in order.
pub open spec fn unmounted_reasons(r: Seq<(Seq<char>, Seq<char>)>, mounted: Set<Seq<char>>) -> Seq<(Seq<char>, Seq<char>)>
    decreases r.len(),
{
    if r.len() == 0 {
        Seq::empty()
    } else {
        let p = unmounted_reasons(r.drop_last(), mounted);
        if mounted.contains(r.last().0) {
            p
        } else {
            p.push(r.last())
        }
    }
}

pub open spec fn pair_views(v: Seq<(String, String)>) -> Seq<(Seq<char>, Seq<char>)> {
    v.map_values(|e: (String, String)| (e.0@, e.1@))
}

impl RuntimeState {
    /// The modules mounted by any strategy, sorted, each once.
    pub fn mounted_module_ids(&self) -> (r: Vec<String>)
        ensures
            string_views(r@) == sorted_seq(mounted_set(*self)),
            strictly_sorted(string_views(r@)),
            string_views(r@).to_set() == mounted_set(*self),
    {
        let mut out = sorted_unique(&self.overlay_modules);
        extend_sorted(&mut out, &self.magic_modules);
        extend_sorted(&mut out, &self.hymofs_modules);
        proof {
            lemma_sorted_seq(string_views(out@));
            assert(string_views(out@).to_set() =~= mounted_set(*self));
        }
        out
    }

    /// Drops the mount errors of modules that were mounted after all.
    pub fn clear_recovered_mount_errors(&mut self)
        ensures
            string_views(final(self).mount_error_modules@) == unmounted_ids(
                string_views(old(self).mount_error_modules@),
                mounted_set(*old(self)),
            ),
            pair_views(final(self).mount_error_reasons@) == unmounted_reasons(
                pair_views(old(self).mount_error_reasons@),
                mounted_set(*old(self)),
            ),
            final(self).overlay_modules == old(self).overlay_modules,
            final(self).magic_modules == old(self).magic_modules,
            final(self).hymofs_modules == old(self).hymofs_modules,
            final(self).storage_mode == old(self).storage_mode,
            final(self).mount_point == old(self).mount_point,
            final(self).active_mounts == old(self).active_mounts,
            final(self).skip_mount_modules == old(self).skip_mount_modules,
            final(self).mount_stats == old(self).mount_stats,
            final(self).log_file == old(self).log_file,
            final(self).timestamp == old(self).timestamp,
            final(self).pid == old(self).pid,
            final(self).tmpfs_xattr_supported == old(self).tmpfs_xattr_supported,
            final(self).hymofs == old(self).hymofs,
    {
        let mounted = self.mounted_module_ids();
        let ghost ms = mounted_set(*self);
        let ghost ev = string_views(self.mount_error_modules@);
        let mut errors: Vec<String> = Vec::new();
        let mut i: usize = 0;
        while i < self.mount_error_modules.len()
            invariant
                i <= self.mount_error_modules@.len(),
                ev == string_views(self.mount_error_modules@),
                string_views(mounted@).to_set() == ms,
                string_views(errors@) == unmounted_ids(ev.take(i as int), ms),
            decreases self.mount_error_modules@.len() - i,
        {
            proof {
                assert(ev.take(i + 1).drop_last() =~= ev.take(i as int));
                assert(ev.take(i + 1).last() == self.mount_error_modules@[i as int]@);
            }
            if !contains_string(&mounted, &self.mount_error_modules[i]) {
                let ghost before = string_views(errors@);
                errors.push(self.mount_error_modules[i].clone());
                assert(string_views(errors@) =~= before.push(self.mount_error_modules@[i as int]@));
            }
            i = i + 1;
        }
        assert(ev.take(ev.len() as int) =~= ev);
        let ghost rv = pair_views(self.mount_error_reasons@);
        let mut reasons: Vec<(String, String)> = Vec::new();
        let mut j: usize = 0;
        while j < self.mount_error_reasons.len()
            invariant
                j <= self.mount_error_reasons@.len(),
                rv == pair_views(self.mount_error_reasons@),
                string_views(mounted@).to_set() == ms,
                pair_views(reasons@) == unmounted_reasons(rv.take(j as int), ms),
            decreases self.mount_error_reasons@.len() - j,
        {
            proof {
                assert(rv.take(j + 1).drop_last() =~= rv.take(j as int));
                assert(rv.take(j + 1).last() == (self.mount_error_reasons@[j as int].0@, self.mount_error_reasons@[j as int].1@));
            }
            if !contains_string(&mounted, &self.mount_error_reasons[j].0) {
                let ghost before = pair_views(reasons@);
                let e = (self.mount_error_reasons[j].0.clone(), self.mount_error_reasons[j].1.clone());
                reasons.push(e);
                assert(pair_views(reasons@) =~= before.push((self.mount_error_reasons@[j as int].0@, self.mount_error_reasons@[j as int].1@)));
            }
            j = j + 1;
        }
        assert(rv.take(rv.len() as int) =~= rv);
        self.mount_error_modules = errors;
        self.mount_error_reasons = reasons;
    }
}

/// The mounts a boot left active: the overlaid partitions, and `hymofs`
/// when its runtime is on; sorted, each once.
pub open spec fn active_mount_set(r: ExecutionResult) -> Set<Seq<char>> {
    if r.hymofs_runtime_enabled {
        string_views(r.overlay_partitions@).to_set().insert("hymofs"@)
    } else {
        string_views(r.overlay_partitions@).to_set()
    }
}

pub fn collect_active_mounts(result: &ExecutionResult) -> (r: Vec<String>)
    ensures
        string_views(r@) == sorted_seq(active_mount_set(*result)),
{
    let mut out = sorted_unique(&result.overlay_partitions);
    if result.hymofs_runtime_enabled {
        insert_sorted(&mut out, String::from_str("hymofs"));
    }
    proof {
        lemma_sorted_seq(string_views(out@));
    }
    out
}

/// An entry of the modules directory as the skip listing sees it.
#[derive(Debug, Clone)]
pub struct SkipEntry {
    pub id: String,
    pub is_dir: bool,
    pub has_skip_mount: bool,
}

/// The modules that carry a `skip_mount` marker.
pub open spec fn skip_set(entries: Seq<SkipEntry>) -> Set<Seq<char>> {
    Set::new(|id: Seq<char>| exists|i: int| 0 <= i < entries.len() && (#[trigger] entries[i]).id@ == id && entries[i].is_dir && !reserved_dir(id) && entries[i].has_skip_mount)
}

pub fn collect_skip_mount_modules(entries: &Vec<SkipEntry>) -> (r: Vec<String>)
    ensures
        string_views(r@) == sorted_seq(skip_set(entries@)),
{
    let mut out: Vec<String> = Vec::new();
    let mut i: usize = 0;
    assert(string_views(out@).to_set() =~= skip_set(entries@.take(0)));
    while i < entries.len()
        invariant
            i <= entries@.len(),
            strictly_sorted(string_views(out@)),
            string_views(out@).to_set() == skip_set(entries@.take(i as int)),
        decreases entries@.len() - i,
    {
        let e = &entries[i];
        let ghost before = string_views(out@).to_set();
        let keep = e.is_dir && !is_reserved_module_dir(e.id.as_str()) && e.has_skip_mount;
        if keep {
            insert_sorted(&mut out, e.id.clone());
        }
        proof {
            let a = entries@.take(i as int);
            let b = entries@.take(i + 1);
            assert forall|x: Seq<char>| skip_set(b).contains(x) <==> (skip_set(a).contains(x) || (keep && x == e.id@)) by {
                if skip_set(b).contains(x) {
                    let k = choose|k: int| 0 <= k < b.len() && (#[trigger] b[k]).id@ == x && b[k].is_dir && !reserved_dir(x) && b[k].has_skip_mount;
                    if k < i {
                        assert(a[k] == b[k]);
                    }
                }
                if skip_set(a).contains(x) {
                    let k = choose|k: int| 0 <= k < a.len() && (#[trigger] a[k]).id@ == x && a[k].is_dir && !reserved_dir(x) && a[k].has_skip_mount;
                    assert(b[k] == a[k]);
                }
                if keep && x == e.id@ {
                    assert(b[i as int] == *e);
                }
            }
            assert(string_views(out@).to_set() =~= skip_set(b));
        }
        i = i + 1;
    }
    assert(entries@.take(entries@.len() as int) =~= entries@);
    proof {
        lemma_sorted_seq(string_views(out@));
    }
    out
}

impl RuntimeState {
    /// The record of a boot: what the run reported, the mount errors carried
    /// over from the previous record (dropping those of modules mounted
    /// now), and the skip markers found.
    #[verifier::rlimit(30)]
    pub fn build_from_execution(
        storage_mode: &str,
        mount_point: &str,
        result: &ExecutionResult,
        log_file: String,
        previous_errors: Vec<String>,
        previous_reasons: Vec<(String, String)>,
        hymofs: HymoFsRuntimeInfo,
        timestamp: u64,
        pid: u32,
        tmpfs_xattr_supported: bool,
        skip_entries: &Vec<SkipEntry>,
    ) -> (r: Self)
        ensures
            r.storage_mode@ == storage_mode@,
            r.mount_point@ == mount_point@,
            r.overlay_modules@ == result.overlay_module_ids@,
            r.magic_modules@ == result.magic_module_ids@,
            r.hymofs_modules@ == result.hymofs_module_ids@,
            string_views(r.active_mounts@) == sorted_seq(active_mount_set(*result)),
            r.mount_stats == result.mount_stats,
            r.log_file@ == log_file@,
            r.timestamp == timestamp,
            r.pid == pid,
            r.tmpfs_xattr_supported == tmpfs_xattr_supported,
            string_views(r.mount_error_modules@) == unmounted_ids(string_views(previous_errors@), mounted_set(r)),
            pair_views(r.mount_error_reasons@) == unmounted_reasons(pair_views(previous_reasons@), mounted_set(r)),
            string_views(r.skip_mount_modules@) == sorted_seq(skip_set(skip_entries@)),
            r.hymofs == hymofs,
    {
        let mut state = RuntimeState {
            timestamp,
            pid,
            storage_mode: String::from_str(storage_mode),
            mount_point: String::from_str(mount_point),
            overlay_modules: result.overlay_module_ids.clone(),
            magic_modules: result.magic_module_ids.clone(),
            hymofs_modules: result.hymofs_module_ids.clone(),
            mount_error_modules: previous_errors,
            mount_error_reasons: previous_reasons,
            skip_mount_modules: Vec::new(),
            active_mounts: collect_active_mounts(result),
            tmpfs_xattr_supported,
            mount_stats: result.mount_stats,
            hymofs,
            log_file,
        };
        state.clear_recovered_mount_errors();
        state.skip_mount_modules = collect_skip_mount_modules(skip_entries);
        state
    }
}

} // verus!
