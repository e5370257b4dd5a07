//! Which modules ask for the kernel redirection backends, whether those
//! backends can serve them, and what their mirror storage is made of.
use vstd::prelude::*;

use crate::conf::schema::{Config, OverlayMode};
use crate::defs;
use crate::domain::{ModuleRules, MountMode};
use crate::engine::hymofs::{apply_start, reset_allowed, unavailable_apply_msg, RuleApplyStart};
use crate::engine::inventory::Module;
use crate::engine::plan::MountPlan;
use crate::strset::string_views;

verus! {

/// What the boot found out about the redirection backend.
#[derive(Debug, Clone)]
pub struct BackendCapabilities {
    pub hymofs_status: String,
    pub hymofs_usable: bool,
}

impl BackendCapabilities {
    /// The capabilities for `config`, given the status name the kernel
    /// reported and whether HymoFS can operate.
    pub fn detect(config: &Config, status_name: String, can_operate: bool) -> (r: Self)
        ensures
            r.hymofs_status@ == status_name@,
            r.hymofs_usable == (config.hymofs.enabled && can_operate),
    {
        BackendCapabilities {
            hymofs_status: status_name,
            hymofs_usable: config.hymofs.enabled && can_operate,
        }
    }

    pub fn can_use_hymofs(&self) -> (r: bool)
        ensures
            r == self.hymofs_usable,
    {
        self.hymofs_usable
    }

    /// The redirection backend as the kasumi coordinator sees it.
    pub fn can_use_kasumi(&self) -> (r: bool)
        ensures
            r == self.hymofs_usable,
    {
        self.hymofs_usable
    }

    pub fn hymofs_status(&self) -> (r: &str)
        ensures
            r@ == self.hymofs_status@,
    {
        self.hymofs_status.as_str()
    }

    pub fn kasumi_status(&self) -> (r: &str)
        ensures
            r@ == self.hymofs_status@,
    {
        self.hymofs_status.as_str()
    }
}

/// The module's rules name `mode` as its default or for some path.
pub open spec fn requests_mode(rules: ModuleRules, mode: MountMode) -> bool {
    rules.default_mode == mode || exists|i: int| 0 <= i < rules.paths@.len() && (#[trigger] rules.paths@[i]).1 == mode
}

fn rules_request(rules: &ModuleRules, mode: MountMode) -> (r: bool)
    ensures
        r == requests_mode(*rules, mode),
{
    if rules.default_mode == mode {
        return true;
    }
    let mut i: usize = 0;
    while i < rules.paths.len()
        invariant
            i <= rules.paths@.len(),
            forall|k: int| 0 <= k < i ==> (#[trigger] rules.paths@[k]).1 != mode,
        decreases rules.paths@.len() - i,
    {
        if rules.paths[i].1 == mode {
            return true;
        }
        i = i + 1;
    }
    false
}

/// Some module asks for `mode`.
pub open spec fn any_requests(modules: Seq<Module>, mode: MountMode) -> bool {
    exists|i: int| 0 <= i < modules.len() && requests_mode((#[trigger] modules[i]).rules, mode)
}

fn any_module_requests(modules: &Vec<Module>, mode: MountMode) -> (r: bool)
    ensures
        r == any_requests(modules@, mode),
{
    let mut i: usize = 0;
    while i < modules.len()
        invariant
            i <= modules@.len(),
            forall|k: int| 0 <= k < i ==> !requests_mode((#[trigger] modules@[k]).rules, mode),
        decreases modules@.len() - i,
    {
        if rules_request(&modules[i].rules, mode) {
            return true;
        }
        i = i + 1;
    }
    false
}

/// The indices of the modules that ask for `mode`, in order.
pub open spec fn requesting_indices(modules: Seq<Module>, mode: MountMode) -> Seq<int>
    decreases modules.len(),
{
    if modules.len() == 0 {
        Seq::empty()
    } else {
        let prev = requesting_indices(modules.drop_last(), mode);
        if requests_mode(modules.last().rules, mode) {
            prev.push(modules.len() - 1)
        } else {
            prev
        }
    }
}

fn modules_requesting(modules: &Vec<Module>, mode: MountMode) -> (r: Vec<usize>)
    ensures
        r@.map_values(|k: usize| k as int) == requesting_indices(modules@, mode),
{
    let mut out: Vec<usize> = Vec::new();
    let mut i: usize = 0;
    while i < modules.len()
        invariant
            i <= modules@.len(),
            out@.map_values(|k: usize| k as int) == requesting_indices(modules@.take(i as int), mode),
        decreases modules@.len() - i,
    {
        proof {
            assert(modules@.take(i + 1).drop_last() =~= modules@.take(i as int));
            assert(modules@.take(i + 1).last() == modules@[i as int]);
        }
        if rules_request(&modules[i].rules, mode) {
            let ghost before = out@.map_values(|k: usize| k as int);
            out.push(i);
            assert(out@.map_values(|k: usize| k as int) =~= before.push(i as int));
        }
        i = i + 1;
    }
    assert(modules@.take(modules@.len() as int) =~= modules@);
    out
}

/// What the mirror storage of a backend is set up with.
#[derive(Debug, Clone)]
pub struct MirrorStoragePlan {
    /// Where the mirror is mounted.
    pub target: String,
    /// The module directories copied into it.
    pub sources: Vec<String>,
    /// Whether an ext4 image is preferred to tmpfs.
    pub prefer_ext4: bool,
    pub mount_source: String,
    /// The image file used for ext4.
    pub image_path: String,
}

/// `p` sets up the mirror at `target` from the source directories of the
/// modules at `idx`.
pub open spec fn mirror_plan_fits(p: MirrorStoragePlan, config: Config, modules: Seq<Module>, idx: Seq<int>, target: Seq<char>, image: Seq<char>) -> bool {
    &&& p.target@ == target
    &&& p.sources@.len() == idx.len()
    &&& forall|k: int| 0 <= k < idx.len() ==> (#[trigger] p.sources@[k])@ == modules[idx[k]].source_path@
    &&& p.prefer_ext4 == (config.overlay_mode == OverlayMode::Ext4)
    &&& p.mount_source@ == config.mountsource@
    &&& p.image_path@ == image
}

fn sources_of(modules: &Vec<Module>, idx: &Vec<usize>) -> (r: Vec<String>)
    requires
        forall|k: int| 0 <= k < idx@.len() ==> #[trigger] idx@[k] < modules@.len(),
    ensures
        r@.len() == idx@.len(),
        forall|k: int| 0 <= k < idx@.len() ==> (#[trigger] r@[k])@ == modules@[idx@[k] as int].source_path@,
{
    let mut out: Vec<String> = Vec::new();
    let mut k: usize = 0;
    while k < idx.len()
        invariant
            k <= idx@.len(),
            forall|j: int| 0 <= j < idx@.len() ==> #[trigger] idx@[j] < modules@.len(),
            out@.len() == k,
            forall|j: int| 0 <= j < k ==> (#[trigger] out@[j])@ == modules@[idx@[j] as int].source_path@,
        decreases idx@.len() - k,
    {
        out.push(modules[idx[k]].source_path.clone());
        k = k + 1;
    }
    out
}

pub proof fn lemma_requesting_in_range(modules: Seq<Module>, mode: MountMode)
    ensures
        forall|k: int| 0 <= k < requesting_indices(modules, mode).len() ==> 0 <= #[trigger] requesting_indices(modules, mode)[k] < modules.len(),
    decreases modules.len(),
{
    if modules.len() > 0 {
        lemma_requesting_in_range(modules.drop_last(), mode);
        let prev = requesting_indices(modules.drop_last(), mode);
        assert forall|k: int| 0 <= k < requesting_indices(modules, mode).len() implies 0 <= #[trigger] requesting_indices(modules, mode)[k] < modules.len() by {
            if k < prev.len() {
                assert(requesting_indices(modules, mode)[k] == prev[k]);
            }
        }
    }
}

/// The HymoFS side of a boot.
pub struct HymofsCoordinator<'a> {
    pub config: &'a Config,
}

impl<'a> HymofsCoordinator<'a> {
    pub fn new(config: &'a Config) -> (r: Self)
        ensures
            *r.config == *config,
    {
        HymofsCoordinator { config }
    }

    /// The module asks for HymoFS somewhere.
    pub fn module_requests_hymofs(module: &Module) -> (r: bool)
        ensures
            r == requests_mode(module.rules, MountMode::Hymofs),
    {
        rules_request(&module.rules, MountMode::Hymofs)
    }

    /// HymoFS can serve and some module asks for it.
    pub fn backend_requested(&self, capabilities: &BackendCapabilities, modules: &Vec<Module>) -> (r: bool)
        ensures
            r == (capabilities.hymofs_usable && any_requests(modules@, MountMode::Hymofs)),
    {
        capabilities.can_use_hymofs() && any_module_requests(modules, MountMode::Hymofs)
    }

    /// The indices of the modules that ask for HymoFS, in order.
    pub fn hymofs_modules(&self, modules: &Vec<Module>) -> (r: Vec<usize>)
        ensures
            r@.map_values(|k: usize| k as int) == requesting_indices(modules@, MountMode::Hymofs),
    {
        modules_requesting(modules, MountMode::Hymofs)
    }

    /// How the HymoFS mirror is set up, or `None` when the backend is not
    /// requested and nothing is done.
    pub fn prepare_mirror_storage(&self, capabilities: &BackendCapabilities, modules: &Vec<Module>) -> (r: Option<MirrorStoragePlan>)
        ensures
            !(capabilities.hymofs_usable && any_requests(modules@, MountMode::Hymofs)) ==> r is None,
            (capabilities.hymofs_usable && any_requests(modules@, MountMode::Hymofs)) ==> (r matches Some(p) && mirror_plan_fits(
                p,
                *self.config,
                modules@,
                requesting_indices(modules@, MountMode::Hymofs),
                self.config.hymofs.mirror_path@,
                defs::HYMOFS_IMG_FILE@,
            )),
    {
        if !self.backend_requested(capabilities, modules) {
            return None;
        }
        let idx = self.hymofs_modules(modules);
        proof {
            lemma_requesting_in_range(modules@, MountMode::Hymofs);
            assert forall|k: int| 0 <= k < idx@.len() implies #[trigger] idx@[k] < modules@.len() by {
                assert(idx@.map_values(|j: usize| j as int)[k] == idx@[k] as int);
            }
        }
        let sources = sources_of(modules, &idx);
        let p = MirrorStoragePlan {
            target: self.config.hymofs.mirror_path.clone(),
            sources,
            prefer_ext4: self.config.overlay_mode == OverlayMode::Ext4,
            mount_source: self.config.mountsource.clone(),
            image_path: String::from_str(defs::HYMOFS_IMG_FILE),
        };
        proof {
            let ri = requesting_indices(modules@, MountMode::Hymofs);
            assert forall|k: int| 0 <= k < ri.len() implies (#[trigger] p.sources@[k])@ == modules@[ri[k]].source_path@ by {
                assert(idx@.map_values(|j: usize| j as int)[k] == idx@[k] as int);
            }
        }
        Some(p)
    }

    /// Whether resetting the runtime goes on (see `reset_allowed`).
    pub fn reset_runtime(&self, available: bool) -> (r: bool)
        ensures
            r == (self.config.hymofs.enabled && available),
    {
        reset_allowed(self.config, available)
    }

    /// The first step of loading the rules (see `apply_start`).
    pub fn apply_runtime(&self, plan: &MountPlan, available: bool, user_hide_rule_count: usize) -> (r: RuleApplyStart)
        ensures
            r == apply_start_spec(*plan, *self.config, available, user_hide_rule_count as nat, r),
            r matches RuleApplyStart::Fail(m) ==> m@ == unavailable_apply_msg(),
    {
        apply_start(plan, self.config, available, user_hide_rule_count)
    }

    /// Whether the overlay xattrs of a mounted target are hidden: HymoFS is
    /// enabled and can operate.
    pub fn hide_overlay_xattrs(&self, can_operate: bool) -> (r: bool)
        ensures
            r == (self.config.hymofs.enabled && can_operate),
    {
        self.config.hymofs.enabled && can_operate
    }
}

/// How `apply_start` begins; a failure carries its message (that of
/// `unavailable_apply_msg`).
pub open spec fn apply_start_spec(plan: MountPlan, config: Config, available: bool, user_hide_rule_count: nat, r: RuleApplyStart) -> RuleApplyStart {
    if !config.hymofs.enabled {
        RuleApplyStart::Disabled
    } else if !available {
        if plan.hymofs_module_ids@.len() > 0 {
            RuleApplyStart::Fail(r->Fail_0)
        } else {
            RuleApplyStart::Unavailable
        }
    } else {
        RuleApplyStart::Proceed {
            runtime_requested: crate::engine::hymofs::runtime_requested(plan, config.hymofs, user_hide_rule_count),
            compile: plan.hymofs_module_ids@.len() > 0,
        }
    }
}

/// Whether kasumi modules were asked for and can be served.
#[derive(Debug, Clone, Copy, PartialEq, Eq, Structural)]
pub struct KasumiPlanningState {
    pub requested: bool,
    pub available: bool,
}

/// The kasumi side of a boot, served by the same redirection backend.
pub struct KasumiCoordinator<'a> {
    pub config: &'a Config,
}

impl<'a> KasumiCoordinator<'a> {
    pub fn new(config: &'a Config) -> (r: Self)
        ensures
            *r.config == *config,
    {
        KasumiCoordinator { config }
    }

    pub fn module_requests_kasumi(module: &Module) -> (r: bool)
        ensures
            r == requests_mode(module.rules, MountMode::Kasumi),
    {
        rules_request(&module.rules, MountMode::Kasumi)
    }

    pub fn requested_by_modules(modules: &Vec<Module>) -> (r: bool)
        ensures
            r == any_requests(modules@, MountMode::Kasumi),
    {
        any_module_requests(modules, MountMode::Kasumi)
    }

    /// The ids of the modules that ask for kasumi, in order.
    pub fn requested_module_ids(modules: &Vec<Module>) -> (r: Vec<String>)
        ensures
            r@.len() == requesting_indices(modules@, MountMode::Kasumi).len(),
            forall|k: int| 0 <= k < r@.len() ==> (#[trigger] r@[k])@ == modules@[requesting_indices(modules@, MountMode::Kasumi)[k]].id@,
    {
        let idx = modules_requesting(modules, MountMode::Kasumi);
        proof {
            lemma_requesting_in_range(modules@, MountMode::Kasumi);
            assert forall|k: int| 0 <= k < idx@.len() implies #[trigger] idx@[k] < modules@.len() by {
                assert(idx@.map_values(|j: usize| j as int)[k] == idx@[k] as int);
            }
        }
        let mut out: Vec<String> = Vec::new();
        let mut k: usize = 0;
        while k < idx.len()
            invariant
                k <= idx@.len(),
                forall|j: int| 0 <= j < idx@.len() ==> #[trigger] idx@[j] < modules@.len(),
                idx@.map_values(|j: usize| j as int) == requesting_indices(modules@, MountMode::Kasumi),
                out@.len() == k,
                forall|j: int| 0 <= j < k ==> (#[trigger] out@[j])@ == modules@[idx@[j] as int].id@,
            decreases idx@.len() - k,
        {
            out.push(modules[idx[k]].id.clone());
            k = k + 1;
        }
        proof {
            assert forall|j: int| 0 <= j < out@.len() implies (#[trigger] out@[j])@ == modules@[requesting_indices(modules@, MountMode::Kasumi)[j]].id@ by {
                assert(idx@.map_values(|i: usize| i as int)[j] == idx@[j] as int);
            }
        }
        out
    }

    pub fn planning_state(&self, capabilities: &BackendCapabilities, modules: &Vec<Module>) -> (r: KasumiPlanningState)
        ensures
            r.requested == any_requests(modules@, MountMode::Kasumi),
            r.available == capabilities.hymofs_usable,
    {
        KasumiPlanningState {
            requested: Self::requested_by_modules(modules),
            available: capabilities.can_use_kasumi(),
        }
    }

    pub fn backend_requested(&self, capabilities: &BackendCapabilities, modules: &Vec<Module>) -> (r: bool)
        ensures
            r == (any_requests(modules@, MountMode::Kasumi) && capabilities.hymofs_usable),
    {
        let planning = self.planning_state(capabilities, modules);
        planning.requested && planning.available
    }

    pub fn kasumi_modules(&self, modules: &Vec<Module>) -> (r: Vec<usize>)
        ensures
            r@.map_values(|k: usize| k as int) == requesting_indices(modules@, MountMode::Kasumi),
    {
        modules_requesting(modules, MountMode::Kasumi)
    }

    /// How the kasumi mirror is set up, or `None` when nothing is done.
    pub fn prepare_mirror_storage(&self, capabilities: &BackendCapabilities, modules: &Vec<Module>) -> (r: Option<MirrorStoragePlan>)
        ensures
            !(any_requests(modules@, MountMode::Kasumi) && capabilities.hymofs_usable) ==> r is None,
            (any_requests(modules@, MountMode::Kasumi) && capabilities.hymofs_usable) ==> (r matches Some(p) && mirror_plan_fits(
                p,
                *self.config,
                modules@,
                requesting_indices(modules@, MountMode::Kasumi),
                defs::KASUMI_MIRROR_DIR@,
                defs::KASUMI_IMG_FILE@,
            )),
    {
        if !self.backend_requested(capabilities, modules) {
            return None;
        }
        let idx = self.kasumi_modules(modules);
        proof {
            lemma_requesting_in_range(modules@, MountMode::Kasumi);
            assert forall|k: int| 0 <= k < idx@.len() implies #[trigger] idx@[k] < modules@.len() by {
                assert(idx@.map_values(|j: usize| j as int)[k] == idx@[k] as int);
            }
        }
        let sources = sources_of(modules, &idx);
        let p = MirrorStoragePlan {
            target: String::from_str(defs::KASUMI_MIRROR_DIR),
            sources,
            prefer_ext4: self.config.overlay_mode == OverlayMode::Ext4,
            mount_source: self.config.mountsource.clone(),
            image_path: String::from_str(defs::KASUMI_IMG_FILE),
        };
        proof {
            let ri = requesting_indices(modules@, MountMode::Kasumi);
            assert forall|k: int| 0 <= k < ri.len() implies (#[trigger] p.sources@[k])@ == modules@[ri[k]].source_path@ by {
                assert(idx@.map_values(|j: usize| j as int)[k] == idx@[k] as int);
            }
        }
        Some(p)
    }

    pub fn reset_runtime(&self, available: bool) -> (r: bool)
        ensures
            r == (self.config.hymofs.enabled && available),
    {
        reset_allowed(self.config, available)
    }

    pub fn apply_runtime(&self, plan: &MountPlan, available: bool, user_hide_rule_count: usize) -> (r: RuleApplyStart)
        ensures
            r == apply_start_spec(*plan, *self.config, available, user_hide_rule_count as nat, r),
            r matches RuleApplyStart::Fail(m) ==> m@ == unavailable_apply_msg(),
    {
        apply_start(plan, self.config, available, user_hide_rule_count)
    }

    /// Whether the overlay xattrs of a target are hidden: the backend is
    /// enabled with xattr hiding, and can operate.
    pub fn hide_overlay_xattrs(&self, can_operate: bool) -> (r: bool)
        ensures
            r == (self.config.hymofs.enabled && self.config.hymofs.enable_hidexattr && can_operate),
    {
        self.config.hymofs.enabled && self.config.hymofs.enable_hidexattr && can_operate
    }
}

} // verus!
