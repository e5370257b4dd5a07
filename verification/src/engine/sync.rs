//! Copying modules into the staging storage: which entries are orphans,
//! where each module is staged, and how a failure is pinned on its module.
use vstd::prelude::*;

use crate::conf::schema::Config;
use crate::defs;
use crate::engine::planner::{join_name, join_path};
use crate::engine::recovery::{FailureStage, ModuleStageFailure};
use crate::strset::{contains_string, extend_sorted, lemma_sorted_seq, sorted_seq, sorted_unique, string_views};
use crate::text::{chars_of, concat_str};

verus! {

/// The partitions a module is synced for: the built-in ones and the
/// configured ones.
pub open spec fn sync_partition_set(config: Config) -> Set<Seq<char>> {
    defs::managed_partitions_spec().to_set().union(string_views(config.partitions@).to_set())
}

/// The sync partitions, sorted, each once.
pub fn build_managed_partitions(config: &Config) -> (r: Vec<String>)
    ensures
        string_views(r@) == sorted_seq(sync_partition_set(*config)),
{
    let builtin = defs::managed_partitions();
    let mut out = sorted_unique(&builtin);
    extend_sorted(&mut out, &config.partitions);
    proof {
        lemma_sorted_seq(string_views(out@));
    }
    out
}

/// An entry of the staging storage that no module owns: not `lost+found`,
/// not this module's own directory, not hidden, and not a module id.
pub open spec fn orphan_entry(name: Seq<char>, active: Set<Seq<char>>) -> bool {
    &&& name != "lost+found"@
    &&& name != "hybrid_mount"@
    &&& !(name.len() > 0 && name[0] == '.')
    &&& !active.contains(name)
}

pub fn is_orphan_entry(name: &str, active_ids: &Vec<String>) -> (r: bool)
    ensures
        r == orphan_entry(name@, string_views(active_ids@).to_set()),
{
    let s = String::from_str(name);
    if s == String::from_str("lost+found") || s == String::from_str("hybrid_mount") {
        return false;
    }
    let v = chars_of(name);
    if v.len() > 0 && v[0] == '.' {
        return false;
    }
    !contains_string(active_ids, &s)
}

/// Where a module is staged: its directory, the backup of the previous copy
/// and the directory it is first copied to.
#[derive(Debug, Clone)]
pub struct SyncPaths {
    pub dst: String,
    pub backup: String,
    pub tmp: String,
}

pub fn sync_paths(target_base: &str, module_id: &str) -> (r: SyncPaths)
    ensures
        r.dst@ == join_name(target_base@, module_id@),
        r.backup@ == join_name(target_base@, ".backup_"@ + module_id@),
        r.tmp@ == join_name(target_base@, ".tmp_"@ + module_id@),
{
    let backup_name = concat_str(".backup_", module_id);
    let tmp_name = concat_str(".tmp_", module_id);
    SyncPaths {
        dst: join_path(target_base, module_id),
        backup: join_path(target_base, backup_name.as_str()),
        tmp: join_path(target_base, tmp_name.as_str()),
    }
}

/// Which step of a module's sync failed.
#[derive(Debug, Clone, Copy, PartialEq, Eq, Structural)]
pub enum SyncFailure {
    Copy,
    Backup,
    Commit,
}

pub open spec fn sync_failure_context(what: SyncFailure) -> Seq<char> {
    match what {
        SyncFailure::Copy => "Failed to sync module "@,
        SyncFailure::Backup => "Failed to back up module "@,
        SyncFailure::Commit => "Failed to commit synced module "@,
    }
}

/// The failure of a module's sync, pinned on that module.
pub fn sync_failure(module_id: &str, what: SyncFailure, error: &str) -> (r: ModuleStageFailure)
    ensures
        r.stage == FailureStage::Sync,
        r.module_ids@.len() == 1,
        r.module_ids@[0]@ == module_id@,
        r.message@ == sync_failure_context(what) + module_id@ + ": "@ + error@,
{
    let head = match what {
        SyncFailure::Copy => "Failed to sync module ",
        SyncFailure::Backup => "Failed to back up module ",
        SyncFailure::Commit => "Failed to commit synced module ",
    };
    let msg = concat_str(head, module_id);
    let msg = concat_str(msg.as_str(), ": ");
    let msg = concat_str(msg.as_str(), error);
    let mut ids: Vec<String> = Vec::new();
    ids.push(String::from_str(module_id));
    ModuleStageFailure::new(FailureStage::Sync, ids, msg)
}

/// A module is synced when it has a directory for some managed partition.
pub fn has_managed_mount_root(partition_dir_present: &Vec<bool>) -> (r: bool)
    ensures
        r == exists|i: int| 0 <= i < partition_dir_present@.len() && partition_dir_present@[i],
{
    let mut i: usize = 0;
    while i < partition_dir_present.len()
        invariant
            i <= partition_dir_present@.len(),
            forall|k: int| 0 <= k < i ==> !partition_dir_present@[k],
        decreases partition_dir_present@.len() - i,
    {
        if partition_dir_present[i] {
            return true;
        }
        i = i + 1;
    }
    false
}

/// Where a module's sync stands.
#[derive(Debug, Clone, Copy, PartialEq, Eq, Structural)]
pub enum SyncPhase {
    Start,
    ClearingTmp,
    Copying,
    BackingUp,
    Committing,
    Restoring,
    RemovingBackup,
    Finished,
}

/// How a module's sync ends.
#[derive(Debug, Clone)]
pub enum SyncEnd {
    /// The new copy is in place.
    Synced,
    /// Nothing to mount: no partition directory, or nothing copied.
    Skipped,
    /// A step failed with this error.
    Failed(SyncFailure, String),
}

/// What the caller reports back after doing what the sync asked.
#[derive(Debug)]
pub enum SyncEvent {
    /// The start: whether the module has a managed partition directory and
    /// whether a stale temporary copy is there.
    Begin { has_root: bool, tmp_exists: bool },
    /// The temporary copy was removed (as far as it could be).
    TmpCleared,
    /// The copy into the temporary directory: whether it holds something
    /// to mount, and whether the module's staged directory exists.
    Copied(Result<(bool, bool), String>),
    /// The staged directory was moved to the backup.
    BackedUp(Result<(), String>),
    /// The temporary copy was moved into place.
    Committed(Result<(), String>),
    /// The backup was moved back (as far as it could be).
    Restored,
    /// The backup was removed (as far as it could be).
    BackupRemoved,
}

/// What the sync asks the caller to do next, on the paths of `sync_paths`.
#[derive(Debug)]
pub enum SyncAction {
    /// Remove the temporary copy.
    RemoveTmp,
    /// Copy the module's source into the temporary directory.
    CopyToTmp,
    /// Move the staged directory to the backup.
    BackUp,
    /// Move the temporary copy into place.
    Commit,
    /// Move the backup back into place.
    Restore,
    /// Remove the backup.
    RemoveBackup,
    /// Done: whether the module was synced, or the failure pinned on it.
    Finish(Result<bool, ModuleStageFailure>),
}

/// The sync of one module into the staging storage.
#[derive(Debug)]
pub struct ModuleSync {
    pub module_id: String,
    pub paths: SyncPaths,
    pub phase: SyncPhase,
    pub backed_up: bool,
    pub end: Option<SyncEnd>,
}

pub struct SyncView {
    pub phase: SyncPhase,
    pub backed_up: bool,
    pub end: Option<SyncEnd>,
}

/// The action, with the failure a finish carries written as its step and
/// error.
pub enum SyncActionView {
    RemoveTmp,
    CopyToTmp,
    BackUp,
    Commit,
    Restore,
    RemoveBackup,
    FinishSynced,
    FinishSkipped,
    FinishFailed(SyncFailure, Seq<char>),
}

impl ModuleSync {
    pub open spec fn view_of(&self) -> SyncView {
        SyncView { phase: self.phase, backed_up: self.backed_up, end: self.end }
    }
}

/// The view of an action of the sync of module `id`.
pub open spec fn sync_action_view(a: SyncAction, id: Seq<char>) -> Option<SyncActionView> {
    match a {
        SyncAction::RemoveTmp => Some(SyncActionView::RemoveTmp),
        SyncAction::CopyToTmp => Some(SyncActionView::CopyToTmp),
        SyncAction::BackUp => Some(SyncActionView::BackUp),
        SyncAction::Commit => Some(SyncActionView::Commit),
        SyncAction::Restore => Some(SyncActionView::Restore),
        SyncAction::RemoveBackup => Some(SyncActionView::RemoveBackup),
        SyncAction::Finish(Ok(true)) => Some(SyncActionView::FinishSynced),
        SyncAction::Finish(Ok(false)) => Some(SyncActionView::FinishSkipped),
        SyncAction::Finish(Err(f)) => {
            let ok_shape = f.stage == FailureStage::Sync && f.module_ids@.len() == 1 && f.module_ids@[0]@ == id;
            if ok_shape && exists|w: SyncFailure, e: Seq<char>| f.message@ == sync_failure_context(w) + id + ": "@ + e {
                let (w, e) = choose|w: SyncFailure, e: Seq<char>| f.message@ == sync_failure_context(w) + id + ": "@ + e;
                Some(SyncActionView::FinishFailed(w, e))
            } else {
                None
            }
        },
    }
}

/// The finish of a sync that ends with `end`.
pub open spec fn finish_view(end: SyncEnd) -> SyncActionView {
    match end {
        SyncEnd::Synced => SyncActionView::FinishSynced,
        SyncEnd::Skipped => SyncActionView::FinishSkipped,
        SyncEnd::Failed(w, e) => SyncActionView::FinishFailed(w, e@),
    }
}

/// The event answers the action of the phase the sync is in.
pub open spec fn sync_event_fits(phase: SyncPhase, ev: SyncEvent) -> bool {
    match ev {
        SyncEvent::Begin { .. } => phase == SyncPhase::Start,
        SyncEvent::TmpCleared => phase == SyncPhase::ClearingTmp,
        SyncEvent::Copied(_) => phase == SyncPhase::Copying,
        SyncEvent::BackedUp(_) => phase == SyncPhase::BackingUp,
        SyncEvent::Committed(_) => phase == SyncPhase::Committing,
        SyncEvent::Restored => phase == SyncPhase::Restoring,
        SyncEvent::BackupRemoved => phase == SyncPhase::RemovingBackup,
    }
}

/// One step of a module's sync: a stale temporary copy is removed first;
/// the module is copied into the temporary directory; the staged copy, if
/// any, is moved to the backup; the new copy is moved into place and the
/// backup removed. A failed step removes the temporary copy (after moving
/// the backup back, when the commit failed) before the sync fails; a module
/// without a partition directory or without content is skipped.
pub open spec fn sync_step(v: SyncView, ev: SyncEvent) -> (SyncView, SyncActionView) {
    match ev {
        SyncEvent::Begin { has_root, tmp_exists } => if !has_root {
            (SyncView { phase: SyncPhase::Finished, end: Some(SyncEnd::Skipped), ..v }, SyncActionView::FinishSkipped)
        } else if tmp_exists {
            (SyncView { phase: SyncPhase::ClearingTmp, end: None, ..v }, SyncActionView::RemoveTmp)
        } else {
            (SyncView { phase: SyncPhase::Copying, ..v }, SyncActionView::CopyToTmp)
        },
        SyncEvent::TmpCleared => match v.end {
            None => (SyncView { phase: SyncPhase::Copying, ..v }, SyncActionView::CopyToTmp),
            Some(end) => (SyncView { phase: SyncPhase::Finished, ..v }, finish_view(end)),
        },
        SyncEvent::Copied(Err(e)) => (
            SyncView { phase: SyncPhase::ClearingTmp, end: Some(SyncEnd::Failed(SyncFailure::Copy, e)), ..v },
            SyncActionView::RemoveTmp,
        ),
        SyncEvent::Copied(Ok((content, dst_exists))) => if !content {
            (SyncView { phase: SyncPhase::ClearingTmp, end: Some(SyncEnd::Skipped), ..v }, SyncActionView::RemoveTmp)
        } else if dst_exists {
            (SyncView { phase: SyncPhase::BackingUp, ..v }, SyncActionView::BackUp)
        } else {
            (SyncView { phase: SyncPhase::Committing, ..v }, SyncActionView::Commit)
        },
        SyncEvent::BackedUp(Err(e)) => (
            SyncView { phase: SyncPhase::ClearingTmp, end: Some(SyncEnd::Failed(SyncFailure::Backup, e)), ..v },
            SyncActionView::RemoveTmp,
        ),
        SyncEvent::BackedUp(Ok(())) => (SyncView { phase: SyncPhase::Committing, backed_up: true, ..v }, SyncActionView::Commit),
        SyncEvent::Committed(Err(e)) => if v.backed_up {
            (
                SyncView { phase: SyncPhase::Restoring, end: Some(SyncEnd::Failed(SyncFailure::Commit, e)), ..v },
                SyncActionView::Restore,
            )
        } else {
            (
                SyncView { phase: SyncPhase::ClearingTmp, end: Some(SyncEnd::Failed(SyncFailure::Commit, e)), ..v },
                SyncActionView::RemoveTmp,
            )
        },
        SyncEvent::Committed(Ok(())) => if v.backed_up {
            (SyncView { phase: SyncPhase::RemovingBackup, end: Some(SyncEnd::Synced), ..v }, SyncActionView::RemoveBackup)
        } else {
            (SyncView { phase: SyncPhase::Finished, end: Some(SyncEnd::Synced), ..v }, SyncActionView::FinishSynced)
        },
        SyncEvent::Restored => (SyncView { phase: SyncPhase::ClearingTmp, ..v }, SyncActionView::RemoveTmp),
        SyncEvent::BackupRemoved => (SyncView { phase: SyncPhase::Finished, ..v }, SyncActionView::FinishSynced),
    }
}

proof fn lemma_failure_view(id: Seq<char>, w: SyncFailure, e: Seq<char>, f: ModuleStageFailure)
    requires
        f.stage == FailureStage::Sync,
        f.module_ids@.len() == 1,
        f.module_ids@[0]@ == id,
        f.message@ == sync_failure_context(w) + id + ": "@ + e,
    ensures
        sync_action_view(SyncAction::Finish(Err(f)), id) == Some(SyncActionView::FinishFailed(w, e)),
{
    let (w2, e2) = choose|w2: SyncFailure, e2: Seq<char>| f.message@ == sync_failure_context(w2) + id + ": "@ + e2;
    assert(sync_failure_context(w2) + id + ": "@ + e2 == sync_failure_context(w) + id + ": "@ + e);
    reveal_strlit("Failed to sync module ");
    reveal_strlit("Failed to back up module ");
    reveal_strlit("Failed to commit synced module ");
    reveal_strlit(": ");
    let h1 = sync_failure_context(w);
    let h2 = sync_failure_context(w2);
    if w != w2 {
        assert((sync_failure_context(w2) + id + ": "@ + e2)[10] == h2[10]);
        assert((sync_failure_context(w) + id + ": "@ + e)[10] == h1[10]);
    }
    assert(h1 == h2);
    assert(h1.len() == h2.len());
    let n: int = (h1.len() + id.len() + 2) as int;
    assert(e2 =~= (sync_failure_context(w2) + id + ": "@ + e2).skip(n));
    assert(e =~= (sync_failure_context(w) + id + ": "@ + e).skip(n));
}

impl ModuleSync {
    /// The sync of module `module_id` into `target_base`.
    pub fn new(target_base: &str, module_id: &str) -> (r: Self)
        ensures
            r.module_id@ == module_id@,
            r.paths.dst@ == join_name(target_base@, module_id@),
            r.paths.backup@ == join_name(target_base@, ".backup_"@ + module_id@),
            r.paths.tmp@ == join_name(target_base@, ".tmp_"@ + module_id@),
            r.phase == SyncPhase::Start,
            !r.backed_up,
            r.end is None,
    {
        ModuleSync {
            module_id: String::from_str(module_id),
            paths: sync_paths(target_base, module_id),
            phase: SyncPhase::Start,
            backed_up: false,
            end: None,
        }
    }

    fn finish(&self, end: &SyncEnd) -> (a: SyncAction)
        ensures
            sync_action_view(a, self.module_id@) == Some(finish_view(*end)),
    {
        match end {
            SyncEnd::Synced => SyncAction::Finish(Ok(true)),
            SyncEnd::Skipped => SyncAction::Finish(Ok(false)),
            SyncEnd::Failed(w, e) => {
                let f = sync_failure(self.module_id.as_str(), *w, e.as_str());
                proof {
                    lemma_failure_view(self.module_id@, *w, e@, f);
                }
                SyncAction::Finish(Err(f))
            },
        }
    }

    /// Takes the caller's report of the last action and says what to do
    /// next (see `sync_step`).
    pub fn step(&mut self, ev: SyncEvent) -> (a: SyncAction)
        requires
            sync_event_fits(old(self).phase, ev),
        ensures
            (final(self).view_of(), sync_action_view(a, final(self).module_id@)) == ({
                let (nv, av) = sync_step(old(self).view_of(), ev);
                (nv, Some(av))
            }),
            final(self).module_id == old(self).module_id,
            final(self).paths == old(self).paths,
    {
        match ev {
            SyncEvent::Begin { has_root, tmp_exists } => {
                if !has_root {
                    self.phase = SyncPhase::Finished;
                    self.end = Some(SyncEnd::Skipped);
                    SyncAction::Finish(Ok(false))
                } else if tmp_exists {
                    self.phase = SyncPhase::ClearingTmp;
                    self.end = None;
                    SyncAction::RemoveTmp
                } else {
                    self.phase = SyncPhase::Copying;
                    SyncAction::CopyToTmp
                }
            },
            SyncEvent::TmpCleared => {
                match &self.end {
                    None => {
                        self.phase = SyncPhase::Copying;
                        SyncAction::CopyToTmp
                    },
                    Some(end) => {
                        let a = self.finish(end);
                        self.phase = SyncPhase::Finished;
                        a
                    },
                }
            },
            SyncEvent::Copied(Err(e)) => {
                self.phase = SyncPhase::ClearingTmp;
                self.end = Some(SyncEnd::Failed(SyncFailure::Copy, e));
                SyncAction::RemoveTmp
            },
            SyncEvent::Copied(Ok((content, dst_exists))) => {
                if !content {
                    self.phase = SyncPhase::ClearingTmp;
                    self.end = Some(SyncEnd::Skipped);
                    SyncAction::RemoveTmp
                } else if dst_exists {
                    self.phase = SyncPhase::BackingUp;
                    SyncAction::BackUp
                } else {
                    self.phase = SyncPhase::Committing;
                    SyncAction::Commit
                }
            },
            SyncEvent::BackedUp(Err(e)) => {
                self.phase = SyncPhase::ClearingTmp;
                self.end = Some(SyncEnd::Failed(SyncFailure::Backup, e));
                SyncAction::RemoveTmp
            },
            SyncEvent::BackedUp(Ok(())) => {
                self.phase = SyncPhase::Committing;
                self.backed_up = true;
                SyncAction::Commit
            },
            SyncEvent::Committed(Err(e)) => {
                self.end = Some(SyncEnd::Failed(SyncFailure::Commit, e));
                if self.backed_up {
                    self.phase = SyncPhase::Restoring;
                    SyncAction::Restore
                } else {
                    self.phase = SyncPhase::ClearingTmp;
                    SyncAction::RemoveTmp
                }
            },
            SyncEvent::Committed(Ok(())) => {
                self.end = Some(SyncEnd::Synced);
                if self.backed_up {
                    self.phase = SyncPhase::RemovingBackup;
                    SyncAction::RemoveBackup
                } else {
                    self.phase = SyncPhase::Finished;
                    SyncAction::Finish(Ok(true))
                }
            },
            SyncEvent::Restored => {
                self.phase = SyncPhase::ClearingTmp;
                SyncAction::RemoveTmp
            },
            SyncEvent::BackupRemoved => {
                self.phase = SyncPhase::Finished;
                SyncAction::Finish(Ok(true))
            },
        }
    }
}

/// The previous copy of a module is dropped only once the new one is in
/// place: the backup is removed only right after a successful commit that
/// followed a backup.
pub proof fn lemma_backup_removed_only_after_commit(v: SyncView, ev: SyncEvent)
    ensures
        sync_step(v, ev).1 is RemoveBackup ==> (ev matches SyncEvent::Committed(Ok(_))) && v.backed_up,
{
}

/// A failed commit after a backup moves the backup back first.
pub proof fn lemma_failed_commit_restores(v: SyncView, e: String)
    requires
        v.backed_up,
    ensures
        sync_step(v, SyncEvent::Committed(Err(e))).1 is Restore,
        sync_step(v, SyncEvent::Committed(Err(e))).0.end == Some(SyncEnd::Failed(SyncFailure::Commit, e)),
{
}

/// A sync fails only after its temporary copy is removed, and then with
/// the failure it recorded.
pub proof fn lemma_failure_after_cleanup(v: SyncView, ev: SyncEvent)
    ensures
        sync_step(v, ev).1 is FinishFailed ==> (ev is TmpCleared && v.end matches Some(SyncEnd::Failed(_, _))),
{
}

/// A backup is asked for only of a staged copy that exists, after content
/// was copied; a commit only after content was copied and any staged copy
/// was backed up: with content and no staged copy, the commit comes next.
pub proof fn lemma_backup_needs_staged_copy(v: SyncView, ev: SyncEvent)
    ensures
        sync_step(v, ev).1 is BackUp ==> (ev matches SyncEvent::Copied(Ok((true, true)))),
        sync_step(v, ev).1 is Commit ==> ((ev matches SyncEvent::Copied(Ok((true, false))))
            || (ev matches SyncEvent::BackedUp(Ok(_)))),
        (ev matches SyncEvent::Copied(Ok((true, false)))) ==> sync_step(v, ev).1 is Commit,
        (ev matches SyncEvent::Copied(Ok((true, true)))) ==> sync_step(v, ev).1 is BackUp,
{
}

} // verus!
