pub mod backend;
pub mod catalog;
pub mod installed;
pub mod process;
pub mod sorting;

pub use backend::{
    after_plan, detect_prefix, finish_plans, outdated_packages, plan_commands, CommandPlan,
    OutdatedItem, PlanStep,
};
pub use catalog::CacheCatalogProvider;
pub use process::{ProcessEvent, ProcessStream};
