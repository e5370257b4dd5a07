//! Carrying out a mount plan: which modules an overlay failure falls back
//! to magic mount, and what the run reports.
use vstd::prelude::*;

use crate::conf::schema::Config;
use crate::engine::api::opt_view;
use crate::engine::plan::{MountPlan, OverlayOperation};
use crate::engine::recovery::{FailureStage, ModuleStageFailure};
use crate::engine::runtime_state::MountStatistics;
use crate::paths::{path_parts, path_view};
use crate::strset::{
    extend_sorted, insert_sorted, lemma_sorted_seq, retain_in, sorted_seq, sorted_unique,
    string_views, strictly_sorted,
};
use crate::text::{chars_of, concat_str, contains_sub, contains_text, join_strings, join_with};

verus! {

/// The module a module-tree path belongs to: the name of the directory that
/// holds the path's last component (`/modA/system` belongs to `modA`).
pub open spec fn module_id_of_path(p: Seq<char>) -> Option<Seq<char>> {
    let n = path_view(p).names;
    if n.len() >= 2 && n[n.len() - 2] != seq!['.', '.'] {
        Some(n[n.len() - 2])
    } else {
        None
    }
}

fn is_dotdot(s: &String) -> (r: bool)
    ensures
        r == (s@ == seq!['.', '.']),
{
    let v = chars_of(s.as_str());
    if v.len() == 2 && v[0] == '.' && v[1] == '.' {
        assert(v@ =~= seq!['.', '.']);
        true
    } else {
        false
    }
}

/// The module that `path` belongs to, as `module_id_of_path` says.
pub fn extract_module_id(path: &str) -> (r: Option<String>)
    ensures
        opt_view(r) == module_id_of_path(path@),
{
    let parts = path_parts(path);
    let n = parts.names.len();
    proof {
        assert(parts.view_of().names.len() == n);
    }
    if n >= 2 {
        let cand = &parts.names[n - 2];
        assert(parts.view_of().names[n - 2] == cand@);
        if is_dotdot(cand) {
            None
        } else {
            Some(cand.clone())
        }
    } else {
        None
    }
}

/// The modules that the paths `dirs` belong to.
pub open spec fn involved_ids(dirs: Seq<Seq<char>>) -> Set<Seq<char>> {
    Set::new(
        |id: Seq<char>|
            exists|i: int| 0 <= i < dirs.len() && #[trigger] module_id_of_path(dirs[i]) == Some(id),
    )
}

proof fn lemma_involved_step(dirs: Seq<Seq<char>>, i: int)
    requires
        0 <= i < dirs.len(),
    ensures
        involved_ids(dirs.take(i + 1)) == match module_id_of_path(dirs[i]) {
            Some(id) => involved_ids(dirs.take(i)).insert(id),
            None => involved_ids(dirs.take(i)),
        },
{
    let a = dirs.take(i);
    let b = dirs.take(i + 1);
    assert forall|k: int| 0 <= k < i implies b[k] == a[k] by {}
    assert(b[i] == dirs[i]);
    match module_id_of_path(dirs[i]) {
        Some(id) => {
            assert forall|x: Seq<char>| involved_ids(b).contains(x) <==> involved_ids(a).insert(
                id,
            ).contains(x) by {
                if involved_ids(b).contains(x) {
                    let k = choose|k: int| 0 <= k < b.len() && module_id_of_path(b[k]) == Some(x);
                    if k < i {
                        assert(module_id_of_path(a[k]) == Some(x));
                    }
                }
                if involved_ids(a).contains(x) {
                    let k = choose|k: int| 0 <= k < a.len() && module_id_of_path(a[k]) == Some(x);
                    assert(module_id_of_path(b[k]) == Some(x));
                }
                if x == id {
                    assert(module_id_of_path(b[i]) == Some(x));
                }
            }
            assert(involved_ids(b) =~= involved_ids(a).insert(id));
        },
        None => {
            assert forall|x: Seq<char>| involved_ids(b).contains(x) <==> involved_ids(a).contains(
                x,
            ) by {
                if involved_ids(b).contains(x) {
                    let k = choose|k: int| 0 <= k < b.len() && module_id_of_path(b[k]) == Some(x);
                    if k < i {
                        assert(module_id_of_path(a[k]) == Some(x));
                    }
                }
                if involved_ids(a).contains(x) {
                    let k = choose|k: int| 0 <= k < a.len() && module_id_of_path(a[k]) == Some(x);
                    assert(module_id_of_path(b[k]) == Some(x));
                }
            }
            assert(involved_ids(b) =~= involved_ids(a));
        },
    }
}

/// The modules that the paths `dirs` belong to, sorted, each once.
pub fn involved_modules_of(dirs: &Vec<String>) -> (r: Vec<String>)
    ensures
        strictly_sorted(string_views(r@)),
        string_views(r@).to_set() == involved_ids(string_views(dirs@)),
{
    let ghost dv = string_views(dirs@);
    let mut out: Vec<String> = Vec::new();
    let mut i: usize = 0;
    assert(string_views(out@).to_set() =~= involved_ids(dv.take(0)));
    while i < dirs.len()
        invariant
            i <= dv.len(),
            dv == string_views(dirs@),
            strictly_sorted(string_views(out@)),
            string_views(out@).to_set() == involved_ids(dv.take(i as int)),
        decreases dv.len() - i,
    {
        proof {
            lemma_involved_step(dv, i as int);
        }
        match extract_module_id(dirs[i].as_str()) {
            Some(id) => {
                insert_sorted(&mut out, id);
            },
            None => {},
        }
        i = i + 1;
    }
    assert(dv.take(dv.len() as int) =~= dv);
    out
}

/// The modules whose directories an overlay stacks, sorted, each once.
pub fn collect_involved_modules(op: &OverlayOperation) -> (r: Vec<String>)
    ensures
        strictly_sorted(string_views(r@)),
        string_views(r@).to_set() == involved_ids(string_views(op.lowerdirs@)),
{
    involved_modules_of(&op.lowerdirs)
}

/// The modules behind any overlay of the plan.
pub open spec fn plan_overlay_ids(plan: MountPlan) -> Set<Seq<char>> {
    Set::new(
        |id: Seq<char>|
            exists|k: int|
                0 <= k < plan.overlay_ops@.len() && #[trigger] involved_ids(
                    string_views(plan.overlay_ops@[k].lowerdirs@),
                ).contains(id),
    )
}

/// Every module that the plan's overlays stack, each once, sorted: what
/// magic mount takes over when overlayfs is missing.
pub fn collect_overlay_modules_for_magic_fallback(plan: &MountPlan) -> (r: Vec<String>)
    ensures
        strictly_sorted(string_views(r@)),
        string_views(r@).to_set() == plan_overlay_ids(*plan),
{
    let mut out: Vec<String> = Vec::new();
    let mut i: usize = 0;
    while i < plan.overlay_ops.len()
        invariant
            i <= plan.overlay_ops@.len(),
            strictly_sorted(string_views(out@)),
            forall|id: Seq<char>|
                string_views(out@).to_set().contains(id) <==> exists|k: int|
                    0 <= k < i && #[trigger] involved_ids(
                        string_views(plan.overlay_ops@[k].lowerdirs@),
                    ).contains(id),
        decreases plan.overlay_ops@.len() - i,
    {
        let ids = collect_involved_modules(&plan.overlay_ops[i]);
        let ghost before = string_views(out@).to_set();
        extend_sorted(&mut out, &ids);
        proof {
            assert forall|id: Seq<char>|
                string_views(out@).to_set().contains(id) <==> exists|k: int|
                    0 <= k < i + 1 && #[trigger] involved_ids(
                        string_views(plan.overlay_ops@[k].lowerdirs@),
                    ).contains(id) by {
                if involved_ids(string_views(plan.overlay_ops@[i as int].lowerdirs@)).contains(id) {
                    assert(string_views(ids@).to_set().contains(id));
                }
                if before.contains(id) {
                    let k = choose|k: int|
                        0 <= k < i && #[trigger] involved_ids(
                            string_views(plan.overlay_ops@[k].lowerdirs@),
                        ).contains(id);
                    assert(0 <= k < i + 1);
                }
            }
        }
        i = i + 1;
    }
    assert(string_views(out@).to_set() =~= plan_overlay_ids(*plan));
    out
}

/// Whether a failed overlay may hand its modules to magic mount.
pub fn overlay_fallback_allowed(config: &Config) -> (r: bool)
    ensures
        r == config.enable_overlay_fallback,
{
    config.enable_overlay_fallback
}

/// The message says that the kernel met a symbolic link loop (`ELOOP`).
pub open spec fn is_symlink_loop_message(m: Seq<char>) -> bool {
    contains_sub(m, "Too many symbolic links"@) || contains_sub(m, "os error 40"@)
}

/// Whether any message of an error and the errors under it (outermost
/// first) reports a symbolic link loop.
pub fn is_symlink_loop_mount_error(chain: &Vec<String>) -> (r: bool)
    ensures
        r == exists|i: int| 0 <= i < chain@.len() && is_symlink_loop_message(#[trigger] chain@[i]@),
{
    let mut i: usize = 0;
    while i < chain.len()
        invariant
            i <= chain@.len(),
            forall|k: int| 0 <= k < i ==> !is_symlink_loop_message(#[trigger] chain@[k]@),
        decreases chain@.len() - i,
    {
        let msg = chain[i].as_str();
        if contains_text(msg, "Too many symbolic links") || contains_text(msg, "os error 40") {
            return true;
        }
        i = i + 1;
    }
    false
}

/// A magic-mount failure that names the modules it happened in.
#[derive(Debug, Clone)]
pub struct MagicMountModuleFailure {
    pub module_ids: Vec<String>,
    pub message: String,
}

impl MagicMountModuleFailure {
    pub fn new(module_ids: Vec<String>, message: String) -> (r: Self)
        ensures
            r.module_ids@ == module_ids@,
            r.message@ == message@,
    {
        MagicMountModuleFailure { module_ids, message }
    }
}

/// How magic mount failed.
#[derive(Debug, Clone)]
pub enum MagicMountError {
    /// A failure pinned on modules.
    Modules(MagicMountModuleFailure),
    /// Any other failure: its messages, outermost first.
    Other(Vec<String>),
}

/// The modules to blame for a failed magic mount: those the failure names,
/// when it names any, else all the modules that were being mounted.
pub fn resolve_magic_failure_modules(err: &MagicMountError, fallback: &Vec<String>) -> (r: Vec<
    String,
>)
    ensures
        r@ == (match err {
            MagicMountError::Modules(f) => if f.module_ids@.len() > 0 {
                f.module_ids@
            } else {
                fallback@
            },
            MagicMountError::Other(_) => fallback@,
        }),
{
    match err {
        MagicMountError::Modules(f) => {
            if f.module_ids.len() > 0 {
                return f.module_ids.clone();
            }
        },
        MagicMountError::Other(_) => {},
    }
    fallback.clone()
}

/// The text of a magic-mount failure.
pub open spec fn magic_error_text(err: MagicMountError) -> Seq<char> {
    match err {
        MagicMountError::Modules(f) => f.message@,
        MagicMountError::Other(chain) => join_with(string_views(chain@), ": "@),
    }
}

/// The modules `resolve_magic_failure_modules` blames.
pub open spec fn blamed_modules(err: MagicMountError, fallback: Seq<Seq<char>>) -> Seq<Seq<char>> {
    match err {
        MagicMountError::Modules(f) => if f.module_ids@.len() > 0 {
            string_views(f.module_ids@)
        } else {
            fallback
        },
        MagicMountError::Other(_) => fallback,
    }
}

/// What one run of the plan produced.
pub struct ExecutionResult {
    pub overlay_module_ids: Vec<String>,
    pub overlay_partitions: Vec<String>,
    pub magic_module_ids: Vec<String>,
    pub hymofs_module_ids: Vec<String>,
    pub hymofs_runtime_enabled: bool,
    pub mount_stats: MountStatistics,
}

pub struct ResultView {
    pub overlay_module_ids: Seq<Seq<char>>,
    pub overlay_partitions: Seq<Seq<char>>,
    pub magic_module_ids: Seq<Seq<char>>,
    pub hymofs_module_ids: Seq<Seq<char>>,
    pub hymofs_runtime_enabled: bool,
    pub mount_stats: MountStatistics,
}

impl View for ExecutionResult {
    type V = ResultView;

    open spec fn view(&self) -> ResultView {
        ResultView {
            overlay_module_ids: string_views(self.overlay_module_ids@),
            overlay_partitions: string_views(self.overlay_partitions@),
            magic_module_ids: string_views(self.magic_module_ids@),
            hymofs_module_ids: string_views(self.hymofs_module_ids@),
            hymofs_runtime_enabled: self.hymofs_runtime_enabled,
            mount_stats: self.mount_stats,
        }
    }
}

/// Why a run stopped.
#[derive(Debug)]
pub enum ExecError {
    /// A failure pinned on modules, which the boot retry may skip.
    Stage(ModuleStageFailure),
    /// Any other failure.
    Other(String),
}

pub enum ErrView {
    Stage(FailureStage, Seq<Seq<char>>, Seq<char>),
    Other(Seq<char>),
}

impl View for ExecError {
    type V = ErrView;

    open spec fn view(&self) -> ErrView {
        match self {
            ExecError::Stage(f) => ErrView::Stage(f.stage, string_views(f.module_ids@), f.message@),
            ExecError::Other(m) => ErrView::Other(m@),
        }
    }
}

/// Where a run stands.
#[derive(Debug, Clone, Copy, PartialEq, Eq, Structural)]
pub enum ExecPhase {
    Start,
    HymofsReset,
    OverlaySupport,
    Overlay,
    Magic,
    Runtime,
    Umount,
    /// The run reported its result.
    Finished,
    /// The run stopped on a failure.
    Failed,
}

/// What the outside work of the last action came to.
pub enum ExecEvent {
    /// The run starts.
    Begin,
    /// Resetting the HymoFS runtime: whether HymoFS is available, or why the
    /// reset failed.
    HymofsReset(Result<bool, String>),
    /// Probing for overlayfs: whether the kernel has it, or why the probe
    /// failed.
    OverlaySupport(Result<bool, String>),
    /// Mounting the overlay the last action named; on failure, the messages
    /// of the error and the errors under it, outermost first.
    OverlayMounted(Result<(), Vec<String>>),
    /// Magic mount: the modules it mounted and its counters, or how it
    /// failed.
    MagicMounted(Result<(Vec<String>, MountStatistics), MagicMountError>),
    /// Loading the HymoFS rules: whether the runtime is on, or why it failed.
    RuntimeApplied(Result<bool, String>),
    /// The collected unmount list was handed over.
    UmountCommitted,
}

/// The outside work to do next, or the end of the run.
pub enum ExecAction {
    ResetHymofs,
    CheckOverlaySupport,
    /// Mount the overlay operation at this index of the plan.
    MountOverlay(usize),
    /// Magic-mount these modules; the flag says whether HymoFS is available.
    MountMagic(Vec<String>, bool),
    ApplyHymofsRuntime,
    CommitUmount,
    Done(ExecutionResult),
    Fail(ExecError),
}

pub enum ActionView {
    ResetHymofs,
    CheckOverlaySupport,
    MountOverlay(int),
    MountMagic(Seq<Seq<char>>, bool),
    ApplyHymofsRuntime,
    CommitUmount,
    Done(ResultView),
    Fail(ErrView),
}

impl View for ExecAction {
    type V = ActionView;

    open spec fn view(&self) -> ActionView {
        match self {
            ExecAction::ResetHymofs => ActionView::ResetHymofs,
            ExecAction::CheckOverlaySupport => ActionView::CheckOverlaySupport,
            ExecAction::MountOverlay(i) => ActionView::MountOverlay(*i as int),
            ExecAction::MountMagic(ids, h) => ActionView::MountMagic(string_views(ids@), *h),
            ExecAction::ApplyHymofsRuntime => ActionView::ApplyHymofsRuntime,
            ExecAction::CommitUmount => ActionView::CommitUmount,
            ExecAction::Done(r) => ActionView::Done(r@),
            ExecAction::Fail(e) => ActionView::Fail(e@),
        }
    }
}

/// Carries out a mount plan, one piece of outside work at a time.
pub struct Executor {
    pub phase: ExecPhase,
    pub next_op: usize,
    pub magic_ids: Vec<String>,
    pub overlay_ids: Vec<String>,
    pub overlay_partitions: Vec<String>,
    pub mount_stats: MountStatistics,
    pub hymofs_available: bool,
    pub hymofs_runtime_enabled: bool,
    pub rules_cleared: bool,
}

pub struct ExecView {
    pub phase: ExecPhase,
    pub next_op: int,
    pub magic: Seq<Seq<char>>,
    pub overlay: Seq<Seq<char>>,
    pub partitions: Seq<Seq<char>>,
    pub stats: MountStatistics,
    pub available: bool,
    pub runtime_enabled: bool,
    pub rules_cleared: bool,
}

impl View for Executor {
    type V = ExecView;

    open spec fn view(&self) -> ExecView {
        ExecView {
            phase: self.phase,
            next_op: self.next_op as int,
            magic: string_views(self.magic_ids@),
            overlay: string_views(self.overlay_ids@),
            partitions: string_views(self.overlay_partitions@),
            stats: self.mount_stats,
            available: self.hymofs_available,
            runtime_enabled: self.hymofs_runtime_enabled,
            rules_cleared: self.rules_cleared,
        }
    }
}

pub open spec fn unavailable_msg() -> Seq<char> {
    "HymoFS became unavailable before execution"@
}

pub open spec fn pending_msg() -> Seq<char> {
    "[executor] overlayfs unsupported and overlay operations are pending"@
}

pub open spec fn no_modules_msg() -> Seq<char> {
    "[executor] overlayfs unsupported and no modules could be inferred for magic fallback"@
}

/// The result a run in state `v` reports.
pub open spec fn run_result(v: ExecView, plan: MountPlan) -> ResultView {
    ResultView {
        overlay_module_ids: v.overlay,
        overlay_partitions: v.partitions,
        magic_module_ids: v.magic,
        hymofs_module_ids: string_views(plan.hymofs_module_ids@),
        hymofs_runtime_enabled: v.runtime_enabled,
        mount_stats: v.stats,
    }
}

/// The end of a run: the result it reports.
pub open spec fn finish_step(v: ExecView, plan: MountPlan) -> (ExecView, ActionView) {
    (ExecView { phase: ExecPhase::Finished, ..v }, ActionView::Done(run_result(v, plan)))
}

pub open spec fn fail_step(v: ExecView, e: ErrView) -> (ExecView, ActionView) {
    (ExecView { phase: ExecPhase::Failed, ..v }, ActionView::Fail(e))
}

pub open spec fn umount_step(v: ExecView, plan: MountPlan, config: Config) -> (
    ExecView,
    ActionView,
) {
    if !config.disable_umount {
        (ExecView { phase: ExecPhase::Umount, ..v }, ActionView::CommitUmount)
    } else {
        finish_step(v, plan)
    }
}

pub open spec fn runtime_step(v: ExecView, plan: MountPlan, config: Config) -> (
    ExecView,
    ActionView,
) {
    if config.hymofs.enabled {
        (ExecView { phase: ExecPhase::Runtime, ..v }, ActionView::ApplyHymofsRuntime)
    } else {
        umount_step(ExecView { runtime_enabled: false, ..v }, plan, config)
    }
}

pub open spec fn magic_step(v: ExecView, plan: MountPlan, config: Config) -> (
    ExecView,
    ActionView,
) {
    let w = ExecView { rules_cleared: true, ..v };
    if w.magic.len() > 0 {
        (ExecView { phase: ExecPhase::Magic, ..w }, ActionView::MountMagic(w.magic, w.available))
    } else {
        runtime_step(w, plan, config)
    }
}

pub open spec fn overlays_step(v: ExecView, plan: MountPlan, config: Config, i: int) -> (
    ExecView,
    ActionView,
) {
    if i < plan.overlay_ops@.len() {
        (ExecView { phase: ExecPhase::Overlay, next_op: i, ..v }, ActionView::MountOverlay(i))
    } else {
        magic_step(ExecView { next_op: i, ..v }, plan, config)
    }
}

pub open spec fn availability_step(v: ExecView, plan: MountPlan) -> (ExecView, ActionView) {
    if !v.available && plan.hymofs_module_ids@.len() > 0 {
        fail_step(
            v,
            ErrView::Stage(
                FailureStage::Execute,
                string_views(plan.hymofs_module_ids@),
                unavailable_msg(),
            ),
        )
    } else {
        (ExecView { phase: ExecPhase::OverlaySupport, ..v }, ActionView::CheckOverlaySupport)
    }
}

/// The counters after one more mounted overlay.
pub open spec fn plus_overlay(s: MountStatistics) -> MountStatistics {
    MountStatistics {
        total_mounts: (s.total_mounts + 1) as usize,
        successful_mounts: (s.successful_mounts + 1) as usize,
        overlayfs_mounts: (s.overlayfs_mounts + 1) as usize,
        ..s
    }
}

/// The counters after one more failed mount.
pub open spec fn plus_failed(s: MountStatistics) -> MountStatistics {
    MountStatistics {
        total_mounts: (s.total_mounts + 1) as usize,
        failed_mounts: (s.failed_mounts + 1) as usize,
        ..s
    }
}

/// One step of a run: the state and the next action after `ev`.
pub open spec fn exec_step(v: ExecView, plan: MountPlan, config: Config, ev: ExecEvent) -> (
    ExecView,
    ActionView,
) {
    match ev {
        ExecEvent::Begin => if config.hymofs.enabled {
            (ExecView { phase: ExecPhase::HymofsReset, ..v }, ActionView::ResetHymofs)
        } else {
            availability_step(ExecView { available: false, ..v }, plan)
        },
        ExecEvent::HymofsReset(Ok(b)) => availability_step(ExecView { available: b, ..v }, plan),
        ExecEvent::HymofsReset(Err(m)) => fail_step(
            v,
            ErrView::Stage(
                FailureStage::Execute,
                string_views(plan.hymofs_module_ids@),
                "Failed to reset HymoFS runtime: "@ + m@,
            ),
        ),
        ExecEvent::OverlaySupport(Err(m)) => fail_step(v, ErrView::Other(m@)),
        ExecEvent::OverlaySupport(Ok(true)) => overlays_step(v, plan, config, 0),
        ExecEvent::OverlaySupport(Ok(false)) => if plan.overlay_ops@.len() == 0 {
            magic_step(v, plan, config)
        } else if !config.enable_overlay_fallback {
            fail_step(v, ErrView::Other(pending_msg()))
        } else if plan_overlay_ids(plan) == Set::<Seq<char>>::empty() {
            fail_step(v, ErrView::Other(no_modules_msg()))
        } else {
            magic_step(
                ExecView { magic: sorted_seq(v.magic.to_set().union(plan_overlay_ids(plan))), ..v },
                plan,
                config,
            )
        },
        ExecEvent::OverlayMounted(Ok(())) => {
            let op = plan.overlay_ops@[v.next_op];
            overlays_step(
                ExecView {
                    partitions: sorted_seq(v.partitions.to_set().insert(op.partition_name@)),
                    overlay: sorted_seq(
                        v.overlay.to_set().union(involved_ids(string_views(op.lowerdirs@))),
                    ),
                    stats: plus_overlay(v.stats),
                    ..v
                },
                plan,
                config,
                v.next_op + 1,
            )
        },
        ExecEvent::OverlayMounted(Err(chain)) => {
            let op = plan.overlay_ops@[v.next_op];
            let inv = involved_ids(string_views(op.lowerdirs@));
            if (exists|i: int|
                0 <= i < chain@.len() && is_symlink_loop_message(#[trigger] chain@[i]@))
                && config.enable_overlay_fallback && inv != Set::<Seq<char>>::empty() {
                overlays_step(
                    ExecView {
                        magic: sorted_seq(v.magic.to_set().union(inv)),
                        stats: plus_failed(v.stats),
                        ..v
                    },
                    plan,
                    config,
                    v.next_op + 1,
                )
            } else {
                fail_step(
                    v,
                    ErrView::Stage(
                        FailureStage::Execute,
                        sorted_seq(inv),
                        "Overlay mount failed for "@ + op.target@ + ": "@ + join_with(
                            string_views(chain@),
                            ": "@,
                        ),
                    ),
                )
            }
        },
        ExecEvent::MagicMounted(Ok((mounted, stats))) => runtime_step(
            ExecView {
                stats: MountStatistics::sum(v.stats, stats),
                magic: sorted_seq(v.magic.to_set().intersect(string_views(mounted@).to_set())),
                ..v
            },
            plan,
            config,
        ),
        ExecEvent::MagicMounted(Err(e)) => {
            let failed = blamed_modules(e, v.magic);
            fail_step(
                v,
                ErrView::Stage(
                    FailureStage::Execute,
                    failed,
                    "Failed to mount Magic Mount modules ["@ + join_with(failed, ", "@) + "]: "@
                        + magic_error_text(e),
                ),
            )
        },
        ExecEvent::RuntimeApplied(Ok(b)) => umount_step(
            ExecView { runtime_enabled: b, ..v },
            plan,
            config,
        ),
        ExecEvent::RuntimeApplied(Err(m)) => fail_step(
            v,
            ErrView::Stage(
                FailureStage::Execute,
                string_views(plan.hymofs_module_ids@),
                "Failed to apply HymoFS late rules: "@ + m@,
            ),
        ),
        ExecEvent::UmountCommitted => finish_step(v, plan),
    }
}

/// A run reports its result once: a step ends the run in `Finished`
/// exactly when its action is `Done`, and the result that action carries is
/// what the run's state gives (`run_result`) from then on.
pub proof fn lemma_done_is_result(v: ExecView, plan: MountPlan, config: Config, ev: ExecEvent)
    ensures
        (exec_step(v, plan, config, ev).0.phase == ExecPhase::Finished) <==> (exec_step(
            v,
            plan,
            config,
            ev,
        ).1 is Done),
        exec_step(v, plan, config, ev).1 matches ActionView::Done(r) ==> r == run_result(
            exec_step(v, plan, config, ev).0,
            plan,
        ),
{
}

/// HymoFS's runtime comes after the mounts exactly when HymoFS is enabled,
/// whatever its reset said about availability: with it enabled, a step
/// that asks for the umount commit or ends the run follows the runtime
/// (or the commit itself), and a successful magic mount is followed by the
/// runtime; with it disabled, the runtime is never asked for.
pub proof fn lemma_runtime_follows_mounts(v: ExecView, plan: MountPlan, config: Config, ev: ExecEvent)
    ensures
        config.hymofs.enabled && (exec_step(v, plan, config, ev).1 is CommitUmount || exec_step(
            v,
            plan,
            config,
            ev,
        ).1 is Done) ==> ((ev matches ExecEvent::RuntimeApplied(Ok(_))) || ev is UmountCommitted),
        config.hymofs.enabled && (ev matches ExecEvent::MagicMounted(Ok(_))) ==> exec_step(
            v,
            plan,
            config,
            ev,
        ).1 is ApplyHymofsRuntime,
        !config.hymofs.enabled ==> !(exec_step(v, plan, config, ev).1 is ApplyHymofsRuntime),
{
}

/// What a failed overlay leads to: the run fails unless overlay fallback
/// is enabled, the failure is a symbolic link loop and the overlay's
/// modules are known, in which case the run goes on. Without overlayfs,
/// pending overlays fail the run unless fallback is enabled; and modules
/// mapped to HymoFS fail the run when HymoFS turns out unavailable.
pub proof fn lemma_failure_policy(v: ExecView, plan: MountPlan, config: Config, ev: ExecEvent)
    ensures
        ev matches ExecEvent::OverlayMounted(Err(chain)) ==> (exec_step(v, plan, config, ev).1 is Fail
            <==> !(config.enable_overlay_fallback && (exists|i: int|
            0 <= i < chain@.len() && is_symlink_loop_message(#[trigger] chain@[i]@)) && involved_ids(
            string_views(plan.overlay_ops@[v.next_op].lowerdirs@),
        ) != Set::<Seq<char>>::empty())),
        (ev matches ExecEvent::OverlaySupport(Ok(false))) && plan.overlay_ops@.len() > 0
            && !config.enable_overlay_fallback ==> exec_step(v, plan, config, ev).1 is Fail,
        (ev matches ExecEvent::HymofsReset(Ok(false))) && plan.hymofs_module_ids@.len() > 0 ==> exec_step(
            v,
            plan,
            config,
            ev,
        ).1 is Fail,
        (ev matches ExecEvent::OverlaySupport(Err(_))) ==> exec_step(v, plan, config, ev).1 is Fail,
{
}

/// The event answers the action of the phase the run is in.
pub open spec fn event_fits(phase: ExecPhase, ev: ExecEvent) -> bool {
    match ev {
        ExecEvent::Begin => phase == ExecPhase::Start,
        ExecEvent::HymofsReset(_) => phase == ExecPhase::HymofsReset,
        ExecEvent::OverlaySupport(_) => phase == ExecPhase::OverlaySupport,
        ExecEvent::OverlayMounted(_) => phase == ExecPhase::Overlay,
        ExecEvent::MagicMounted(_) => phase == ExecPhase::Magic,
        ExecEvent::RuntimeApplied(_) => phase == ExecPhase::Runtime,
        ExecEvent::UmountCommitted => phase == ExecPhase::Umount,
    }
}

impl Executor {
    /// The phases before magic mount, in which only overlays were counted.
    pub open spec fn before_magic(phase: ExecPhase) -> bool {
        phase == ExecPhase::Start || phase == ExecPhase::HymofsReset || phase
            == ExecPhase::OverlaySupport || phase == ExecPhase::Overlay
    }

    /// The sets are sorted, and before magic mount the counters are bounded
    /// by the overlays already tried.
    pub open spec fn well_formed(&self, plan: MountPlan) -> bool {
        &&& strictly_sorted(string_views(self.magic_ids@))
        &&& strictly_sorted(string_views(self.overlay_ids@))
        &&& strictly_sorted(string_views(self.overlay_partitions@))
        &&& self.phase == ExecPhase::Overlay ==> self.next_op < plan.overlay_ops@.len()
        &&& (self.phase == ExecPhase::Start || self.phase == ExecPhase::HymofsReset || self.phase
            == ExecPhase::OverlaySupport) ==> self.next_op == 0
        &&& Executor::before_magic(self.phase) ==> {
            &&& !self.rules_cleared
            &&& self.next_op <= plan.overlay_ops@.len()
            &&& self.mount_stats.total_mounts <= self.next_op
            &&& self.mount_stats.successful_mounts <= self.next_op
            &&& self.mount_stats.failed_mounts <= self.next_op
            &&& self.mount_stats.overlayfs_mounts <= self.next_op
        }
    }

    /// A run of `plan`, before its first step.
    pub fn new(plan: &MountPlan) -> (r: Self)
        ensures
            r.well_formed(*plan),
            r@ == (ExecView {
                phase: ExecPhase::Start,
                next_op: 0,
                magic: sorted_seq(string_views(plan.magic_module_ids@).to_set()),
                overlay: Seq::empty(),
                partitions: Seq::empty(),
                stats: MountStatistics::zero(),
                available: false,
                runtime_enabled: false,
                rules_cleared: false,
            }),
    {
        let magic_ids = sorted_unique(&plan.magic_module_ids);
        proof {
            lemma_sorted_seq(string_views(magic_ids@));
        }
        let r = Executor {
            phase: ExecPhase::Start,
            next_op: 0,
            magic_ids,
            overlay_ids: Vec::new(),
            overlay_partitions: Vec::new(),
            mount_stats: MountStatistics::default(),
            hymofs_available: false,
            hymofs_runtime_enabled: false,
            rules_cleared: false,
        };
        assert(r@.overlay =~= Seq::<Seq<char>>::empty());
        assert(r@.partitions =~= Seq::<Seq<char>>::empty());
        r
    }

    /// The result the run reports (see `run_result`).
    pub fn result(&self, plan: &MountPlan) -> (r: ExecutionResult)
        ensures
            r@ == run_result(self@, *plan),
    {
        ExecutionResult {
            overlay_module_ids: self.overlay_ids.clone(),
            overlay_partitions: self.overlay_partitions.clone(),
            magic_module_ids: self.magic_ids.clone(),
            hymofs_module_ids: plan.hymofs_module_ids.clone(),
            hymofs_runtime_enabled: self.hymofs_runtime_enabled,
            mount_stats: self.mount_stats,
        }
    }

    fn finish(&mut self, plan: &MountPlan) -> (a: ExecAction)
        ensures
            (final(self)@, a@) == finish_step(old(self)@, *plan),
            final(self).magic_ids@ == old(self).magic_ids@,
            final(self).overlay_ids@ == old(self).overlay_ids@,
            final(self).overlay_partitions@ == old(self).overlay_partitions@,
            final(self).next_op == old(self).next_op,
            final(self).mount_stats == old(self).mount_stats,
    {
        let r = self.result(plan);
        self.phase = ExecPhase::Finished;
        ExecAction::Done(r)
    }

    fn fail(&mut self, e: ExecError) -> (a: ExecAction)
        ensures
            (final(self)@, a@) == fail_step(old(self)@, e@),
            final(self).magic_ids@ == old(self).magic_ids@,
            final(self).overlay_ids@ == old(self).overlay_ids@,
            final(self).overlay_partitions@ == old(self).overlay_partitions@,
            final(self).next_op == old(self).next_op,
            final(self).mount_stats == old(self).mount_stats,
    {
        self.phase = ExecPhase::Failed;
        ExecAction::Fail(e)
    }

    fn to_umount(&mut self, plan: &MountPlan, config: &Config) -> (a: ExecAction)
        ensures
            (final(self)@, a@) == umount_step(old(self)@, *plan, *config),
            final(self).magic_ids@ == old(self).magic_ids@,
            final(self).overlay_ids@ == old(self).overlay_ids@,
            final(self).overlay_partitions@ == old(self).overlay_partitions@,
            final(self).next_op == old(self).next_op,
            final(self).mount_stats == old(self).mount_stats,
    {
        if !config.disable_umount {
            self.phase = ExecPhase::Umount;
            ExecAction::CommitUmount
        } else {
            self.finish(plan)
        }
    }

    fn to_runtime(&mut self, plan: &MountPlan, config: &Config) -> (a: ExecAction)
        ensures
            (final(self)@, a@) == runtime_step(old(self)@, *plan, *config),
            final(self).magic_ids@ == old(self).magic_ids@,
            final(self).overlay_ids@ == old(self).overlay_ids@,
            final(self).overlay_partitions@ == old(self).overlay_partitions@,
            final(self).next_op == old(self).next_op,
            final(self).mount_stats == old(self).mount_stats,
    {
        if config.hymofs.enabled {
            self.phase = ExecPhase::Runtime;
            ExecAction::ApplyHymofsRuntime
        } else {
            self.hymofs_runtime_enabled = false;
            self.to_umount(plan, config)
        }
    }

    fn to_magic(&mut self, plan: &mut MountPlan, config: &Config) -> (a: ExecAction)
        requires
            !old(self).rules_cleared,
        ensures
            (final(self)@, a@) == magic_step(old(self)@, *old(plan), *config),
            final(self).magic_ids@ == old(self).magic_ids@,
            final(self).overlay_ids@ == old(self).overlay_ids@,
            final(self).overlay_partitions@ == old(self).overlay_partitions@,
            final(self).next_op == old(self).next_op,
            final(self).mount_stats == old(self).mount_stats,
            Executor::rules_after(*old(plan), *final(plan), old(self).rules_cleared, true),
    {
        plan.hymofs_add_rules.clear();
        plan.hymofs_merge_rules.clear();
        plan.hymofs_hide_rules.clear();
        self.rules_cleared = true;
        if self.magic_ids.len() > 0 {
            self.phase = ExecPhase::Magic;
            ExecAction::MountMagic(self.magic_ids.clone(), self.hymofs_available)
        } else {
            self.to_runtime(plan, config)
        }
    }

    /// `after` is `before` with the HymoFS rule lists emptied when the step
    /// cleared them, and unchanged otherwise.
    pub open spec fn rules_after(
        before: MountPlan,
        after: MountPlan,
        was_cleared: bool,
        now_cleared: bool,
    ) -> bool {
        &&& after.overlay_ops@ == before.overlay_ops@
        &&& after.overlay_module_ids@ == before.overlay_module_ids@
        &&& after.magic_module_ids@ == before.magic_module_ids@
        &&& after.hymofs_module_ids@ == before.hymofs_module_ids@
        &&& if now_cleared && !was_cleared {
            &&& after.hymofs_add_rules@.len() == 0
            &&& after.hymofs_merge_rules@.len() == 0
            &&& after.hymofs_hide_rules@.len() == 0
        } else {
            &&& after.hymofs_add_rules@ == before.hymofs_add_rules@
            &&& after.hymofs_merge_rules@ == before.hymofs_merge_rules@
            &&& after.hymofs_hide_rules@ == before.hymofs_hide_rules@
        }
    }
}

impl Executor {
    fn to_overlays(&mut self, plan: &mut MountPlan, config: &Config, i: usize) -> (a: ExecAction)
        requires
            !old(self).rules_cleared,
            i <= old(plan).overlay_ops@.len(),
        ensures
            (final(self)@, a@) == overlays_step(old(self)@, *old(plan), *config, i as int),
            final(self).magic_ids@ == old(self).magic_ids@,
            final(self).overlay_ids@ == old(self).overlay_ids@,
            final(self).overlay_partitions@ == old(self).overlay_partitions@,
            final(self).next_op == i,
            final(self).mount_stats == old(self).mount_stats,
            Executor::rules_after(*old(plan), *final(plan), false, final(self).rules_cleared),
    {
        if i < plan.overlay_ops.len() {
            self.phase = ExecPhase::Overlay;
            self.next_op = i;
            ExecAction::MountOverlay(i)
        } else {
            self.next_op = i;
            self.to_magic(plan, config)
        }
    }

    fn check_availability(&mut self, plan: &MountPlan) -> (a: ExecAction)
        ensures
            (final(self)@, a@) == availability_step(old(self)@, *plan),
            final(self).magic_ids@ == old(self).magic_ids@,
            final(self).overlay_ids@ == old(self).overlay_ids@,
            final(self).overlay_partitions@ == old(self).overlay_partitions@,
            final(self).next_op == old(self).next_op,
            final(self).mount_stats == old(self).mount_stats,
    {
        if !self.hymofs_available && plan.hymofs_module_ids.len() > 0 {
            let f = ModuleStageFailure::new(
                FailureStage::Execute,
                plan.hymofs_module_ids.clone(),
                String::from_str("HymoFS became unavailable before execution"),
            );
            self.fail(ExecError::Stage(f))
        } else {
            self.phase = ExecPhase::OverlaySupport;
            ExecAction::CheckOverlaySupport
        }
    }

    fn on_overlay_support(&mut self, plan: &mut MountPlan, config: &Config, r: Result<bool, String>) -> (a: ExecAction)
        requires
            old(self).well_formed(*old(plan)),
            old(self).phase == ExecPhase::OverlaySupport,
        ensures
            (final(self)@, a@) == exec_step(old(self)@, *old(plan), *config, ExecEvent::OverlaySupport(r)),
            final(self).well_formed(*final(plan)),
            Executor::rules_after(*old(plan), *final(plan), old(self).rules_cleared, final(self).rules_cleared),
    {
        match r {
            Err(m) => self.fail(ExecError::Other(m)),
            Ok(true) => self.to_overlays(plan, config, 0),
            Ok(false) => {
                if plan.overlay_ops.len() == 0 {
                    self.to_magic(plan, config)
                } else if !overlay_fallback_allowed(config) {
                    self.fail(
                        ExecError::Other(
                            String::from_str(
                                "[executor] overlayfs unsupported and overlay operations are pending",
                            ),
                        ),
                    )
                } else {
                    let ids = collect_overlay_modules_for_magic_fallback(plan);
                    if ids.len() == 0 {
                        assert(plan_overlay_ids(*plan) =~= Set::<Seq<char>>::empty());
                        self.fail(
                            ExecError::Other(
                                String::from_str(
                                    "[executor] overlayfs unsupported and no modules could be inferred for magic fallback",
                                ),
                            ),
                        )
                    } else {
                        assert(plan_overlay_ids(*plan).contains(string_views(ids@)[0]));
                        extend_sorted(&mut self.magic_ids, &ids);
                        proof {
                            lemma_sorted_seq(string_views(self.magic_ids@));
                        }
                        self.to_magic(plan, config)
                    }
                }
            },
        }
    }

    fn on_overlay_mounted(&mut self, plan: &mut MountPlan, config: &Config, r: Result<(), Vec<String>>) -> (a: ExecAction)
        requires
            old(self).well_formed(*old(plan)),
            old(self).phase == ExecPhase::Overlay,
        ensures
            (final(self)@, a@) == exec_step(old(self)@, *old(plan), *config, ExecEvent::OverlayMounted(r)),
            final(self).well_formed(*final(plan)),
            Executor::rules_after(*old(plan), *final(plan), old(self).rules_cleared, final(self).rules_cleared),
    {
        let _n = plan.overlay_ops.len();
        let idx = self.next_op;
        let inv = collect_involved_modules(&plan.overlay_ops[idx]);
        match r {
            Ok(()) => {
                let name = plan.overlay_ops[idx].partition_name.clone();
                insert_sorted(&mut self.overlay_partitions, name);
                extend_sorted(&mut self.overlay_ids, &inv);
                self.mount_stats.record_overlay_mount();
                proof {
                    lemma_sorted_seq(string_views(self.overlay_partitions@));
                    lemma_sorted_seq(string_views(self.overlay_ids@));
                }
                self.to_overlays(plan, config, idx + 1)
            },
            Err(chain) => {
                let looped = is_symlink_loop_mount_error(&chain);
                proof {
                    lemma_sorted_seq(string_views(inv@));
                    if inv@.len() > 0 {
                        assert(string_views(inv@).to_set().contains(string_views(inv@)[0]));
                    } else {
                        assert(string_views(inv@).to_set() =~= Set::<Seq<char>>::empty());
                    }
                }
                if looped && overlay_fallback_allowed(config) && inv.len() > 0 {
                    self.mount_stats.record_failed();
                    extend_sorted(&mut self.magic_ids, &inv);
                    proof {
                        lemma_sorted_seq(string_views(self.magic_ids@));
                    }
                    self.to_overlays(plan, config, idx + 1)
                } else {
                    let head = concat_str(
                        "Overlay mount failed for ",
                        plan.overlay_ops[idx].target.as_str(),
                    );
                    let head = concat_str(head.as_str(), ": ");
                    let joined = join_strings(&chain, ": ");
                    let msg = concat_str(head.as_str(), joined.as_str());
                    let f = ModuleStageFailure::new(FailureStage::Execute, inv, msg);
                    self.fail(ExecError::Stage(f))
                }
            },
        }
    }

    fn on_magic_mounted(
        &mut self,
        plan: &MountPlan,
        config: &Config,
        r: Result<(Vec<String>, MountStatistics), MagicMountError>,
    ) -> (a: ExecAction)
        requires
            old(self).well_formed(*plan),
            old(self).phase == ExecPhase::Magic,
            r matches Ok((_, s)) ==> MountStatistics::can_merge(old(self).mount_stats, s),
        ensures
            (final(self)@, a@) == exec_step(old(self)@, *plan, *config, ExecEvent::MagicMounted(r)),
            final(self).well_formed(*plan),
            final(self).rules_cleared == old(self).rules_cleared,
    {
        match r {
            Ok((mounted, stats)) => {
                self.mount_stats.merge(&stats);
                let kept = retain_in(&self.magic_ids, &mounted);
                self.magic_ids = kept;
                proof {
                    lemma_sorted_seq(string_views(self.magic_ids@));
                }
                self.to_runtime(plan, config)
            },
            Err(e) => {
                let failed = resolve_magic_failure_modules(&e, &self.magic_ids);
                let text = match &e {
                    MagicMountError::Modules(f) => f.message.clone(),
                    MagicMountError::Other(chain) => join_strings(chain, ": "),
                };
                let listed = join_strings(&failed, ", ");
                let msg = concat_str("Failed to mount Magic Mount modules [", listed.as_str());
                let msg = concat_str(msg.as_str(), "]: ");
                let msg = concat_str(msg.as_str(), text.as_str());
                let f = ModuleStageFailure::new(FailureStage::Execute, failed, msg);
                self.fail(ExecError::Stage(f))
            },
        }
    }

    /// Takes in the outcome of the last action and says what to do next;
    /// `exec_step` is the whole transition.
    pub fn execute(&mut self, plan: &mut MountPlan, config: &Config, event: ExecEvent) -> (a:
        ExecAction)
        requires
            old(self).well_formed(*old(plan)),
            event_fits(old(self).phase, event),
            event matches ExecEvent::MagicMounted(Ok((_, s))) ==> MountStatistics::can_merge(
                old(self).mount_stats,
                s,
            ),
        ensures
            (final(self)@, a@) == exec_step(old(self)@, *old(plan), *config, event),
            final(self).well_formed(*final(plan)),
            Executor::rules_after(
                *old(plan),
                *final(plan),
                old(self).rules_cleared,
                final(self).rules_cleared,
            ),
    {
        match event {
            ExecEvent::Begin => {
                if config.hymofs.enabled {
                    self.phase = ExecPhase::HymofsReset;
                    ExecAction::ResetHymofs
                } else {
                    self.hymofs_available = false;
                    self.check_availability(plan)
                }
            },
            ExecEvent::HymofsReset(r) => match r {
                Ok(b) => {
                    self.hymofs_available = b;
                    self.check_availability(plan)
                },
                Err(m) => {
                    let msg = concat_str("Failed to reset HymoFS runtime: ", m.as_str());
                    let f = ModuleStageFailure::new(
                        FailureStage::Execute,
                        plan.hymofs_module_ids.clone(),
                        msg,
                    );
                    self.fail(ExecError::Stage(f))
                },
            },
            ExecEvent::OverlaySupport(r) => self.on_overlay_support(plan, config, r),
            ExecEvent::OverlayMounted(r) => self.on_overlay_mounted(plan, config, r),
            ExecEvent::MagicMounted(r) => self.on_magic_mounted(plan, config, r),
            ExecEvent::RuntimeApplied(r) => match r {
                Ok(b) => {
                    self.hymofs_runtime_enabled = b;
                    self.to_umount(plan, config)
                },
                Err(m) => {
                    let msg = concat_str("Failed to apply HymoFS late rules: ", m.as_str());
                    let f = ModuleStageFailure::new(
                        FailureStage::Execute,
                        plan.hymofs_module_ids.clone(),
                        msg,
                    );
                    self.fail(ExecError::Stage(f))
                },
            },
            ExecEvent::UmountCommitted => self.finish(plan),
        }
    }
}

/// `base` joined with `name` as `Path::join` does: a rooted name replaces
/// the base.
pub open spec fn path_join(base: Seq<char>, name: Seq<char>) -> Seq<char> {
    if name.len() > 0 && name[0] == '/' {
        name
    } else {
        crate::engine::planner::join_name(base, name)
    }
}

fn path_join_exec(base: &str, name: &str) -> (r: String)
    ensures
        r@ == path_join(base@, name@),
{
    let v = chars_of(name);
    if v.len() > 0 && v[0] == '/' {
        String::from_str(name)
    } else {
        crate::engine::planner::join_path(base, name)
    }
}

/// The upper and work directories kept for a partition's overlay, under
/// the read-write directory.
pub open spec fn rw_dirs(partition: Seq<char>) -> (Seq<char>, Seq<char>) {
    let part = path_join(crate::defs::SYSTEM_RW_DIR@, partition);
    (path_join(part, "upperdir"@), path_join(part, "workdir"@))
}

/// Where the caller looks for a partition's upper and work directories.
pub fn overlay_rw_dirs(partition_name: &str) -> (r: (String, String))
    ensures
        (r.0@, r.1@) == rw_dirs(partition_name@),
{
    let part = path_join_exec(crate::defs::SYSTEM_RW_DIR, partition_name);
    (path_join_exec(part.as_str(), "upperdir"), path_join_exec(part.as_str(), "workdir"))
}

/// The targets mounted with the plain `overlay` source, compared trimmed.
pub open spec fn plain_overlay_source(target: Seq<char>) -> bool {
    exists|i: int|
        0 <= i < crate::defs::ignore_unmount_partitions_spec().len() && crate::text::trim(
            #[trigger] crate::defs::ignore_unmount_partitions_spec()[i],
        ) == crate::text::trim(target)
}

/// One overlay mount as it is made: the layers over the target, the
/// partition's upper and work directories where both exist, and the mount
/// source.
#[derive(Debug, Clone)]
pub struct OverlayMount {
    pub target: String,
    pub lowerdirs: Vec<String>,
    pub upperdir: Option<String>,
    pub workdir: Option<String>,
    pub mount_source: String,
}

/// How the overlay of `op` is mounted; `rw_present` says whether both of
/// the partition's read-write directories (`overlay_rw_dirs`) exist.
pub fn prepare_overlay_mount(op: &OverlayOperation, config: &Config, rw_present: bool) -> (r: OverlayMount)
    ensures
        r.target@ == op.target@,
        string_views(r.lowerdirs@) == string_views(op.lowerdirs@),
        rw_present ==> opt_view(r.upperdir) == Some(rw_dirs(op.partition_name@).0) && opt_view(r.workdir) == Some(rw_dirs(op.partition_name@).1),
        !rw_present ==> r.upperdir is None && r.workdir is None,
        r.mount_source@ == (if plain_overlay_source(op.target@) { "overlay"@ } else { config.mountsource@ }),
{
    let (upper, work) = overlay_rw_dirs(op.partition_name.as_str());
    let (upperdir, workdir) = if rw_present {
        (Some(upper), Some(work))
    } else {
        (None, None)
    };
    let list = crate::defs::ignore_unmount_partitions();
    let t = crate::text::trim_chars(&chars_of(op.target.as_str()));
    let mut plain = false;
    let mut i: usize = 0;
    while i < list.len()
        invariant
            i <= list@.len(),
            string_views(list@) == crate::defs::ignore_unmount_partitions_spec(),
            t@ == crate::text::trim(op.target@),
            plain == exists|j: int| 0 <= j < i && crate::text::trim(#[trigger] crate::defs::ignore_unmount_partitions_spec()[j]) == crate::text::trim(op.target@),
        decreases list@.len() - i,
    {
        let item = crate::text::trim_chars(&chars_of(list[i].as_str()));
        assert(list@[i as int]@ == crate::defs::ignore_unmount_partitions_spec()[i as int]);
        let same = crate::text::same_chars(&item, &t);
        if same {
            plain = true;
        }
        i = i + 1;
    }
    let mount_source = if plain {
        String::from_str("overlay")
    } else {
        config.mountsource.clone()
    };
    let mut lowerdirs: Vec<String> = Vec::new();
    let mut k: usize = 0;
    while k < op.lowerdirs.len()
        invariant
            k <= op.lowerdirs@.len(),
            string_views(lowerdirs@) == string_views(op.lowerdirs@).take(k as int),
        decreases op.lowerdirs@.len() - k,
    {
        lowerdirs.push(op.lowerdirs[k].clone());
        assert(string_views(op.lowerdirs@).take(k + 1) =~= string_views(op.lowerdirs@).take(k as int).push(op.lowerdirs@[k as int]@));
        k = k + 1;
    }
    assert(string_views(op.lowerdirs@).take(op.lowerdirs@.len() as int) =~= string_views(op.lowerdirs@));
    OverlayMount { target: op.target.clone(), lowerdirs, upperdir, workdir, mount_source }
}

} // verus!
