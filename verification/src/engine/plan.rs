//! What a mount plan holds: the overlay mounts to make, the HymoFS rules to
//! load and which modules each strategy serves.
use vstd::prelude::*;

use crate::strset::string_views;

verus! {

/// One overlay mount: `lowerdirs` stacked over `target`.
#[derive(Debug, Clone)]
pub struct OverlayOperation {
    pub partition_name: String,
    pub target: String,
    pub lowerdirs: Vec<String>,
}

/// A HymoFS rule that adds `source` at `target`.
#[derive(Debug, Clone)]
pub struct HymofsAddRule {
    pub target: String,
    pub source: String,
    pub file_type: i32,
}

/// A HymoFS rule that merges the directory `source` into `target`.
#[derive(Debug, Clone)]
pub struct HymofsMergeRule {
    pub target: String,
    pub source: String,
}

#[derive(Debug)]
pub struct MountPlan {
    pub overlay_ops: Vec<OverlayOperation>,
    pub hymofs_add_rules: Vec<HymofsAddRule>,
    pub hymofs_merge_rules: Vec<HymofsMergeRule>,
    pub hymofs_hide_rules: Vec<String>,
    pub overlay_module_ids: Vec<String>,
    pub magic_module_ids: Vec<String>,
    pub hymofs_module_ids: Vec<String>,
}

impl MountPlan {
    /// A plan with nothing in it.
    pub open spec fn is_empty_plan(&self) -> bool {
        &&& self.overlay_ops@.len() == 0
        &&& self.hymofs_add_rules@.len() == 0
        &&& self.hymofs_merge_rules@.len() == 0
        &&& self.hymofs_hide_rules@.len() == 0
        &&& self.overlay_module_ids@.len() == 0
        &&& self.magic_module_ids@.len() == 0
        &&& self.hymofs_module_ids@.len() == 0
    }
}

impl Default for MountPlan {
    fn default() -> (r: Self)
        ensures
            r.is_empty_plan(),
    {
        MountPlan {
            overlay_ops: Vec::new(),
            hymofs_add_rules: Vec::new(),
            hymofs_merge_rules: Vec::new(),
            hymofs_hide_rules: Vec::new(),
            overlay_module_ids: Vec::new(),
            magic_module_ids: Vec::new(),
            hymofs_module_ids: Vec::new(),
        }
    }
}

} // verus!
