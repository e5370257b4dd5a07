pub mod api;
pub mod controller;
pub mod coordinators;
pub mod executor;
pub mod hide_rules;
pub mod hymofs;
pub mod hymofs_path;
pub mod inventory;
pub mod mirror_walk;
pub mod module_status;
pub mod plan;
pub mod planner;
pub mod recovery;
pub mod rule_tree;
pub mod runtime_state;
pub mod storage;
pub mod sync;
pub mod system_api;
