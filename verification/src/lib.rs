//! The verified core of an interactive programming agent: the unified-diff
//! applier, the planner's state machine and plan-directory formats, the git
//! driver's classification rules and the registry of supervised background
//! processes.

pub mod code_search;
pub mod diff;
pub mod diff_emit;
pub mod geometry;
pub mod git;
pub mod history;
pub mod plan_dir;
pub mod planner;
pub mod process;
pub mod quoting;
pub mod state;
pub mod text;
pub mod todo;
