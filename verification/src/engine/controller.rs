//! The boot sequence as a chain of states: storage ready, modules synced,
//! plan made, plan carried out; and what is cleaned up afterwards.
use vstd::prelude::*;

use crate::conf::schema::{Config, OverlayMode};
use crate::engine::coordinators::{requesting_indices, BackendCapabilities, HymofsCoordinator};
use crate::engine::executor::{
    event_fits, exec_step, run_result, ExecAction, ExecEvent, ExecPhase, ExecutionResult, Executor,
};
use crate::engine::inventory::{rules_keys_distinct, scan, scanned, Module, ModuleDirEntry};
use crate::engine::module_status::{running_description, update_description};
use crate::engine::plan::MountPlan;
use crate::engine::planner::{generate, generated, group_views, groups_sorted, OverlayGroup};
use crate::engine::runtime_state::MountStatistics;
use crate::engine::recovery::{FailureStage, ModuleStageFailure};
use crate::engine::runtime_state::{
    active_mount_set, mounted_set, pair_views, skip_set, unmounted_ids, unmounted_reasons, HymoFsRuntimeInfo,
    RuntimeState, SkipEntry,
};
use crate::strset::{sorted_seq, string_views};
use crate::engine::storage::{setup, StorageHandle, StorageRequest};
use crate::domain::MountMode;
use crate::paths::{path_key, path_key_exec, path_parts, path_view};
use crate::text::{char_views, concat_str};

verus! {

/// The state before storage is set up.
pub struct Init;

pub struct StorageReady {
    pub handle: StorageHandle,
}

pub struct ModulesReady {
    pub handle: StorageHandle,
    pub modules: Vec<Module>,
}

pub struct Planned {
    pub handle: StorageHandle,
    pub modules: Vec<Module>,
    pub plan: MountPlan,
    /// The run of the plan.
    pub executor: Executor,
}

pub struct Executed {
    pub handle: StorageHandle,
    pub plan: MountPlan,
    pub result: ExecutionResult,
}

/// One boot attempt, in state `S`.
pub struct MountController<S> {
    pub config: Config,
    pub backend_capabilities: BackendCapabilities,
    pub state: S,
    pub tempdir: String,
}

impl MountController<Init> {
    pub fn new(config: Config, tempdir: &str, backend_capabilities: BackendCapabilities) -> (r: Self)
        ensures
            r.config == config,
            r.backend_capabilities == backend_capabilities,
            r.tempdir@ == tempdir@,
    {
        MountController { config, backend_capabilities, state: Init, tempdir: String::from_str(tempdir) }
    }

    /// The storage to set up at `mnt_base` for the module directory.
    pub fn storage_request(&self, mnt_base: &str) -> (r: StorageRequest)
        ensures
            r.mnt_base@ == mnt_base@,
            r.sources@.len() == 1 && r.sources@[0]@ == self.config.moduledir@,
            r.force_ext4 == (self.config.overlay_mode == OverlayMode::Ext4),
            r.mount_source@ == self.config.mountsource@,
            r.disable_umount == self.config.disable_umount,
            r.img_path@ == crate::defs::MODULES_IMG_FILE@,
    {
        setup(
            mnt_base,
            self.config.moduledir.as_str(),
            self.config.overlay_mode == OverlayMode::Ext4,
            self.config.mountsource.as_str(),
            self.config.disable_umount,
        )
    }

    /// The attempt with its storage set up at `mnt_base`: the tmpfs when
    /// it was tried and `tmpfs_ready` says it holds overlay xattrs, else
    /// the ext4 image (see `StorageRequest::finish`).
    pub fn init_storage(self, mnt_base: &str, tmpfs_ready: bool) -> (r: MountController<StorageReady>)
        ensures
            r.config == self.config,
            r.backend_capabilities == self.backend_capabilities,
            r.tempdir == self.tempdir,
            r.state.handle.spec_mount_point() == mnt_base@,
            r.state.handle.spec_mode() == (if self.config.overlay_mode != OverlayMode::Ext4 && tmpfs_ready {
                "tmpfs"@
            } else {
                "ext4"@
            }),
    {
        let request = self.storage_request(mnt_base);
        let handle = request.finish(tmpfs_ready);
        MountController {
            config: self.config,
            backend_capabilities: self.backend_capabilities,
            state: StorageReady { handle },
            tempdir: self.tempdir,
        }
    }
}

/// The failure of preparing the HymoFS mirror, pinned on the modules that
/// asked for HymoFS.
pub open spec fn mirror_failure_fits(f: ModuleStageFailure, modules: Seq<Module>, err: Seq<char>) -> bool {
    let idx = requesting_indices(modules, MountMode::Hymofs);
    &&& f.stage == FailureStage::Sync
    &&& f.module_ids@.len() == idx.len()
    &&& forall|k: int| 0 <= k < idx.len() ==> (#[trigger] f.module_ids@[k])@ == modules[idx[k]].id@
    &&& f.message@ == "Failed to prepare HymoFS mirror storage: "@ + err
}

impl MountController<StorageReady> {
    /// The failure to report when the HymoFS mirror could not be prepared.
    pub fn mirror_failure(&self, modules: &Vec<Module>, err: &str) -> (r: ModuleStageFailure)
        ensures
            mirror_failure_fits(r, modules@, err@),
    {
        let hymofs = HymofsCoordinator::new(&self.config);
        let idx = hymofs.hymofs_modules(modules);
        let mut ids: Vec<String> = Vec::new();
        let mut k: usize = 0;
        proof {
            crate::engine::coordinators::lemma_requesting_in_range(modules@, MountMode::Hymofs);
        }
        while k < idx.len()
            invariant
                k <= idx@.len(),
                idx@.map_values(|j: usize| j as int) == requesting_indices(modules@, MountMode::Hymofs),
                forall|j: int| 0 <= j < requesting_indices(modules@, MountMode::Hymofs).len() ==> 0 <= #[trigger] requesting_indices(modules@, MountMode::Hymofs)[j] < modules@.len(),
                ids@.len() == k,
                forall|j: int| 0 <= j < k ==> (#[trigger] ids@[j])@ == modules@[idx@[j] as int].id@,
            decreases idx@.len() - k,
        {
            assert(idx@.map_values(|j: usize| j as int)[k as int] == idx@[k as int] as int);
            ids.push(modules[idx[k]].id.clone());
            k = k + 1;
        }
        proof {
            let ri = requesting_indices(modules@, MountMode::Hymofs);
            assert forall|j: int| 0 <= j < ri.len() implies (#[trigger] ids@[j])@ == modules@[ri[j]].id@ by {
                assert(idx@.map_values(|i: usize| i as int)[j] == idx@[j] as int);
            }
        }
        let msg = concat_str("Failed to prepare HymoFS mirror storage: ", err);
        ModuleStageFailure::new(FailureStage::Sync, ids, msg)
    }

    /// The attempt with the modules of the module directory, whose entries
    /// are `entries` (see `scan`).
    pub fn scan_and_sync(self, entries: &Vec<ModuleDirEntry>) -> (r: MountController<ModulesReady>)
        requires
            rules_keys_distinct(self.config),
        ensures
            r.config == self.config,
            r.backend_capabilities == self.backend_capabilities,
            r.tempdir == self.tempdir,
            r.state.handle == self.state.handle,
            scanned(self.config, entries@, r.state.modules@),
    {
        let modules = scan(entries, &self.config);
        MountController {
            config: self.config,
            backend_capabilities: self.backend_capabilities,
            state: ModulesReady { handle: self.state.handle, modules },
            tempdir: self.tempdir,
        }
    }
}

/// The ids of the modules, in order.
pub open spec fn module_ids_of(modules: Seq<Module>) -> Seq<Seq<char>> {
    modules.map_values(|m: Module| m.id@)
}

impl MountController<ModulesReady> {
    /// The attempt with its plan made (see `generated`) from the overlay
    /// groups the planner gathered over these modules, which targets are
    /// directories, and the modules that asked for magic mount and for
    /// HymoFS; its run is ready to start.
    pub fn generate_plan(
        self,
        groups: Vec<OverlayGroup>,
        target_is_dir: &Vec<bool>,
        magic_ids: &Vec<String>,
        kasumi_ids: &Vec<String>,
    ) -> (r: MountController<Planned>)
        requires
            groups@.len() == target_is_dir@.len(),
            groups_sorted(group_views(groups@)),
        ensures
            r.config == self.config,
            r.backend_capabilities == self.backend_capabilities,
            r.tempdir == self.tempdir,
            r.state.handle == self.state.handle,
            r.state.modules == self.state.modules,
            generated(
                r.state.plan,
                group_views(groups@),
                target_is_dir@,
                module_ids_of(self.state.modules@),
                string_views(magic_ids@),
                string_views(kasumi_ids@),
            ),
            r.state.executor.well_formed(r.state.plan),
            r.state.executor@.phase == ExecPhase::Start,
            r.state.executor@.next_op == 0,
            r.state.executor@.magic == sorted_seq(string_views(r.state.plan.magic_module_ids@).to_set()),
            r.state.executor@.overlay == Seq::<Seq<char>>::empty(),
            r.state.executor@.partitions == Seq::<Seq<char>>::empty(),
            r.state.executor@.stats == MountStatistics::zero(),
            !r.state.executor@.available,
            !r.state.executor@.runtime_enabled,
            !r.state.executor@.rules_cleared,
    {
        let mut ids: Vec<String> = Vec::new();
        let mut k: usize = 0;
        while k < self.state.modules.len()
            invariant
                k <= self.state.modules@.len(),
                string_views(ids@) == module_ids_of(self.state.modules@).take(k as int),
            decreases self.state.modules@.len() - k,
        {
            let ghost before = string_views(ids@);
            ids.push(self.state.modules[k].id.clone());
            assert(string_views(ids@) =~= before.push(self.state.modules@[k as int].id@));
            assert(module_ids_of(self.state.modules@).take(k + 1) =~= module_ids_of(self.state.modules@).take(
                k as int,
            ).push(self.state.modules@[k as int].id@));
            k = k + 1;
        }
        assert(module_ids_of(self.state.modules@).take(self.state.modules@.len() as int) =~= module_ids_of(
            self.state.modules@,
        ));
        let plan = generate(groups, target_is_dir, &ids, magic_ids, kasumi_ids);
        let executor = Executor::new(&plan);
        MountController {
            config: self.config,
            backend_capabilities: self.backend_capabilities,
            state: Planned { handle: self.state.handle, modules: self.state.modules, plan, executor },
            tempdir: self.tempdir,
        }
    }
}

impl MountController<Planned> {
    /// One step of the run of the planned plan (see `Executor::execute`).
    pub fn run_step(&mut self, event: ExecEvent) -> (a: ExecAction)
        requires
            old(self).state.executor.well_formed(old(self).state.plan),
            event_fits(old(self).state.executor.phase, event),
            event matches ExecEvent::MagicMounted(Ok((_, s))) ==> MountStatistics::can_merge(
                old(self).state.executor.mount_stats,
                s,
            ),
        ensures
            (final(self).state.executor@, a@) == exec_step(
                old(self).state.executor@,
                old(self).state.plan,
                old(self).config,
                event,
            ),
            final(self).state.executor.well_formed(final(self).state.plan),
            Executor::rules_after(
                old(self).state.plan,
                final(self).state.plan,
                old(self).state.executor.rules_cleared,
                final(self).state.executor.rules_cleared,
            ),
            final(self).config == old(self).config,
            final(self).backend_capabilities == old(self).backend_capabilities,
            final(self).tempdir == old(self).tempdir,
            final(self).state.handle == old(self).state.handle,
            final(self).state.modules == old(self).state.modules,
    {
        self.state.executor.execute(&mut self.state.plan, &self.config, event)
    }

    /// The attempt with its plan carried out, once the run has reported its
    /// result (`Finished`); the result is the one the run's `Done` action
    /// carried (see `lemma_done_is_result`). `None` while the run has not
    /// finished, or when it failed.
    pub fn execute(self) -> (r: Option<MountController<Executed>>)
        ensures
            (self.state.executor.phase == ExecPhase::Finished) <==> r is Some,
            r matches Some(c) ==> {
                &&& c.config == self.config
                &&& c.backend_capabilities == self.backend_capabilities
                &&& c.tempdir == self.tempdir
                &&& c.state.handle == self.state.handle
                &&& c.state.plan == self.state.plan
                &&& c.state.result@ == run_result(self.state.executor@, self.state.plan)
            },
    {
        if self.state.executor.phase != ExecPhase::Finished {
            return None;
        }
        let result = self.state.executor.result(&self.state.plan);
        Some(
            MountController {
                config: self.config,
                backend_capabilities: self.backend_capabilities,
                state: Executed { handle: self.state.handle, plan: self.state.plan, result },
                tempdir: self.tempdir,
            },
        )
    }
}

/// What is removed of the attempt's temporary directory.
#[derive(Debug, Clone, PartialEq, Eq)]
pub enum CleanUp {
    /// Nothing.
    Skip,
    /// The whole directory.
    RemoveAll,
    /// Every entry but the one of this name, which holds the HymoFS mirror.
    RemoveAllBut(String),
}

/// `base`'s components start `p`'s (`Path::starts_with`).
pub open spec fn path_starts_with(p: Seq<char>, base: Seq<char>) -> bool {
    path_key(base).len() <= path_key(p).len() && path_key(p).take(path_key(base).len() as int) == path_key(base)
}

/// The clean-up after an attempt: none when unmounting is disabled, when
/// the directory is not under `/mnt` or is the mirror itself; around the
/// mirror when the mirror lies inside it; else all of it.
pub open spec fn clean_up_spec(tempdir: Seq<char>, mirror: Seq<char>, disable_umount: bool) -> Option<Option<Seq<char>>> {
    if disable_umount || !path_starts_with(tempdir, "/mnt"@) || path_key(tempdir) == path_key(mirror) {
        None
    } else if path_starts_with(mirror, tempdir) {
        let k = path_view(tempdir).names.len();
        if k < path_view(mirror).names.len() {
            Some(Some(path_view(mirror).names[k as int]))
        } else {
            None
        }
    } else {
        Some(None)
    }
}

fn key_prefix(p: &Vec<Vec<char>>, base: &Vec<Vec<char>>) -> (r: bool)
    ensures
        r == (char_views(base@).len() <= char_views(p@).len() && char_views(p@).take(char_views(base@).len() as int) == char_views(base@)),
{
    if base.len() > p.len() {
        return false;
    }
    let mut i: usize = 0;
    while i < base.len()
        invariant
            i <= base@.len(),
            base@.len() <= p@.len(),
            forall|k: int| 0 <= k < i ==> char_views(p@)[k] == char_views(base@)[k],
        decreases base@.len() - i,
    {
        if !crate::text::same_chars(&p[i], &base[i]) {
            assert(char_views(p@).take(char_views(base@).len() as int)[i as int] != char_views(base@)[i as int]);
            return false;
        }
        i = i + 1;
    }
    assert(char_views(p@).take(char_views(base@).len() as int) =~= char_views(base@));
    true
}

/// The clean-up after an attempt (see `clean_up_spec`).
pub fn clean_up(tempdir: &str, hymofs_mirror_path: &str, disable_umount: bool) -> (r: CleanUp)
    ensures
        match clean_up_spec(tempdir@, hymofs_mirror_path@, disable_umount) {
            None => r == CleanUp::Skip,
            Some(None) => r == CleanUp::RemoveAll,
            Some(Some(name)) => (r matches CleanUp::RemoveAllBut(n) && n@ == name),
        },
{
    if disable_umount {
        return CleanUp::Skip;
    }
    let tk = path_key_exec(tempdir);
    let mnt = path_key_exec("/mnt");
    if !key_prefix(&tk, &mnt) {
        return CleanUp::Skip;
    }
    let mk = path_key_exec(hymofs_mirror_path);
    if key_prefix(&tk, &mk) && key_prefix(&mk, &tk) {
        proof {
            assert(char_views(tk@) =~= char_views(mk@));
        }
        return CleanUp::Skip;
    }
    proof {
        if char_views(tk@) == char_views(mk@) {
            assert(char_views(tk@).take(char_views(mk@).len() as int) =~= char_views(mk@));
        }
    }
    if key_prefix(&mk, &tk) {
        let tp = path_parts(tempdir);
        let mp = path_parts(hymofs_mirror_path);
        let k = tp.names.len();
        proof {
            assert(tp.view_of().names.len() == k);
            assert(mp.view_of().names.len() == mp.names@.len());
        }
        if k < mp.names.len() {
            assert(mp.view_of().names[k as int] == mp.names@[k as int]@);
            return CleanUp::RemoveAllBut(mp.names[k].clone());
        }
        return CleanUp::Skip;
    }
    CleanUp::RemoveAll
}

/// The description shown after a successful boot, and the state record
/// that `RuntimeState::build_from_execution` gives.
pub open spec fn finalized(
    r: (String, RuntimeState),
    storage_mode: Seq<char>,
    mount_point: Seq<char>,
    result: ExecutionResult,
    log_file: Seq<char>,
    previous_errors: Seq<Seq<char>>,
    previous_reasons: Seq<(Seq<char>, Seq<char>)>,
    hymofs: HymoFsRuntimeInfo,
    timestamp: u64,
    pid: u32,
    tmpfs_xattr_supported: bool,
    skip_entries: Seq<SkipEntry>,
) -> bool {
    &&& r.0@ == running_description(
        storage_mode,
        result.overlay_module_ids@.len(),
        result.magic_module_ids@.len(),
        result.hymofs_module_ids@.len(),
    )
    &&& r.1.storage_mode@ == storage_mode
    &&& r.1.mount_point@ == mount_point
    &&& r.1.overlay_modules@ == result.overlay_module_ids@
    &&& r.1.magic_modules@ == result.magic_module_ids@
    &&& r.1.hymofs_modules@ == result.hymofs_module_ids@
    &&& r.1.mount_stats == result.mount_stats
    &&& string_views(r.1.active_mounts@) == sorted_seq(active_mount_set(result))
    &&& r.1.log_file@ == log_file
    &&& r.1.timestamp == timestamp
    &&& r.1.pid == pid
    &&& r.1.tmpfs_xattr_supported == tmpfs_xattr_supported
    &&& string_views(r.1.mount_error_modules@) == unmounted_ids(previous_errors, mounted_set(r.1))
    &&& pair_views(r.1.mount_error_reasons@) == unmounted_reasons(previous_reasons, mounted_set(r.1))
    &&& string_views(r.1.skip_mount_modules@) == sorted_seq(skip_set(skip_entries))
    &&& r.1.hymofs == hymofs
}

/// The description shown after a successful boot, and the state record.
pub fn finalize(
    storage_mode: &str,
    mount_point: &str,
    result: &ExecutionResult,
    log_file: String,
    previous_errors: Vec<String>,
    previous_reasons: Vec<(String, String)>,
    hymofs: HymoFsRuntimeInfo,
    timestamp: u64,
    pid: u32,
    tmpfs_xattr_supported: bool,
    skip_entries: &Vec<SkipEntry>,
) -> (r: (String, RuntimeState))
    ensures
        finalized(
            r,
            storage_mode@,
            mount_point@,
            *result,
            log_file@,
            string_views(previous_errors@),
            pair_views(previous_reasons@),
            hymofs,
            timestamp,
            pid,
            tmpfs_xattr_supported,
            skip_entries@,
        ),
{
    let description = update_description(
        storage_mode,
        result.overlay_module_ids.len() as u64,
        result.magic_module_ids.len() as u64,
        result.hymofs_module_ids.len() as u64,
    );
    let state = RuntimeState::build_from_execution(
        storage_mode,
        mount_point,
        result,
        log_file,
        previous_errors,
        previous_reasons,
        hymofs,
        timestamp,
        pid,
        tmpfs_xattr_supported,
        skip_entries,
    );
    (description, state)
}

/// What is removed of the temporary directory, as `clean_up_spec` says.
pub open spec fn clean_up_fits(r: CleanUp, tempdir: Seq<char>, mirror: Seq<char>, disable_umount: bool) -> bool {
    match clean_up_spec(tempdir, mirror, disable_umount) {
        None => r == CleanUp::Skip,
        Some(None) => r == CleanUp::RemoveAll,
        Some(Some(name)) => (r matches CleanUp::RemoveAllBut(n) && n@ == name),
    }
}

impl MountController<Executed> {
    /// The end of the attempt: the description and the state record of its
    /// result (see `finalized`), and what is removed of its temporary
    /// directory.
    pub fn finalize(
        &self,
        log_file: String,
        previous_errors: Vec<String>,
        previous_reasons: Vec<(String, String)>,
        hymofs: HymoFsRuntimeInfo,
        timestamp: u64,
        pid: u32,
        tmpfs_xattr_supported: bool,
        skip_entries: &Vec<SkipEntry>,
    ) -> (r: (String, RuntimeState, CleanUp))
        ensures
            finalized(
                (r.0, r.1),
                self.state.handle.spec_mode(),
                self.state.handle.spec_mount_point(),
                self.state.result,
                log_file@,
                string_views(previous_errors@),
                pair_views(previous_reasons@),
                hymofs,
                timestamp,
                pid,
                tmpfs_xattr_supported,
                skip_entries@,
            ),
            clean_up_fits(r.2, self.tempdir@, self.config.hymofs.mirror_path@, self.config.disable_umount),
    {
        let (description, state) = finalize(
            self.state.handle.mode(),
            self.state.handle.mount_point(),
            &self.state.result,
            log_file,
            previous_errors,
            previous_reasons,
            hymofs,
            timestamp,
            pid,
            tmpfs_xattr_supported,
            skip_entries,
        );
        let c = clean_up(self.tempdir.as_str(), self.config.hymofs.mirror_path.as_str(), self.config.disable_umount);
        (description, state, c)
    }
}

} // verus!
