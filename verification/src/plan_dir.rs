//! The plan directory: the names of the files that hold the planner's state
//! on disk.

use vstd::prelude::*;

verus! {

/// The name of the plan directory within the code path.
pub const PLAN_DIR: &'static str = "g3-plan";

/// The log of everything the planner did; entries are only ever appended.
pub const HISTORY_FILE: &'static str = "planner_history.txt";

/// The requirements as the user entered them and the model refines them.
pub const NEW_REQUIREMENTS_FILE: &'static str = "new_requirements.md";

/// The requirements that are being implemented.
pub const CURRENT_REQUIREMENTS_FILE: &'static str = "current_requirements.md";

/// The list of tasks that drives the implementation.
pub const TODO_FILE: &'static str = "todo.g3.md";

} // verus!
