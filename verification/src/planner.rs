//! The planner's workflow as a state machine: from the state it is in and
//! what has happened, the state it goes to and what is to be done on the
//! way. Carrying out the actions (asking the user, calling the model, running
//! git, writing the plan directory) is the caller's part.

use crate::state::{
    ApprovalChoice, BranchConfirmChoice, CompletionChoice, DirtyFilesChoice, PlannerState,
    RecoveryChoice, RecoveryInfo,
};
use vstd::prelude::*;

verus! {

/// What has happened since the planner entered its state.
#[derive(Debug)]
pub enum PlannerEvent {
    /// The checks at startup were made: whether the code path lies in a git
    /// repository, what the user said of the current branch and of the files
    /// that are not committed (`Proceed` where there is none), and what was
    /// found of an unfinished run.
    StartupChecked {
        is_repo: bool,
        branch: BranchConfirmChoice,
        dirty_files: DirtyFilesChoice,
        recovery: Option<RecoveryInfo>,
    },
    /// The user chose what to do with the unfinished run.
    RecoveryChosen(RecoveryChoice),
    /// The user entered new requirements.
    RequirementsEntered,
    /// The user judged the refined requirements.
    ApprovalChosen(ApprovalChoice),
    /// Every item of the todo list is checked.
    TodoCompleted,
    /// The user said whether the implementation is done.
    CompletionChosen(CompletionChoice),
    /// The implementation is to be archived and committed; `again` says
    /// whether the planner then asks for new requirements or quits.
    Completing { again: bool },
}

/// One thing for the caller to do.
#[derive(Debug, Clone, Copy, PartialEq, Eq, Structural)]
pub enum PlannerAction {
    /// Append `ATTEMPTING RECOVERY` to the history.
    AppendAttemptingRecovery,
    /// Append `USER SKIPPED RECOVERY` to the history.
    AppendSkippedRecovery,
    /// Write what the user entered to `new_requirements.md`.
    WriteNewRequirements,
    /// Append `REFINING REQUIREMENTS` to the history.
    AppendRefiningRequirements,
    /// Rename `new_requirements.md` to `current_requirements.md`.
    PromoteRequirements,
    /// Append `GIT HEAD` with the hash of HEAD to the history.
    AppendGitHead,
    /// Append `START IMPLEMENTING` and the summary block to the history.
    AppendStartImplementing,
    /// Run one more round of implementing.
    RunIteration,
    /// Move `current_requirements.md` to its archive.
    ArchiveRequirements,
    /// Move `todo.g3.md` to its archive.
    ArchiveTodo,
    /// Append `COMPLETED REQUIREMENTS` to the history.
    AppendCompletedRequirements,
    /// Have the model write the commit message.
    GenerateCommitMessage,
    /// Stage the plan directory and the changed files that are not excluded.
    StageFiles,
    /// Append `GIT COMMIT` to the history.
    AppendGitCommit,
    /// Stage the plan directory once more, so that the index holds the
    /// history as it now is.
    RestagePlanDir,
    /// Make the commit.
    Commit,
}

/// What is done to finish an implementation, in order: the plan files are
/// archived and the history says so; the commit message is written and the
/// files are staged; the history notes the commit, the plan directory is
/// staged again with that note, and only then the commit is made.
pub open spec fn completion_actions() -> Seq<PlannerAction> {
    seq![
        PlannerAction::ArchiveRequirements,
        PlannerAction::ArchiveTodo,
        PlannerAction::AppendCompletedRequirements,
        PlannerAction::GenerateCommitMessage,
        PlannerAction::StageFiles,
        PlannerAction::AppendGitCommit,
        PlannerAction::RestagePlanDir,
        PlannerAction::Commit,
    ]
}

/// The state that follows `state` on `event`, and the actions on the way, in
/// order. An event that the state does not wait for changes nothing.
pub open spec fn transition(state: PlannerState, event: PlannerEvent) -> (
    PlannerState,
    Seq<PlannerAction>,
) {
    match (state, event) {
        (
            PlannerState::Startup,
            PlannerEvent::StartupChecked { is_repo, branch, dirty_files, recovery },
        ) => {
            if !is_repo || branch == BranchConfirmChoice::Quit || dirty_files
                == DirtyFilesChoice::Quit {
                (PlannerState::Quit, seq![])
            } else {
                match recovery {
                    Some(info) => (PlannerState::Recovery(info), seq![]),
                    None => (PlannerState::PromptForRequirements, seq![]),
                }
            }
        },
        (PlannerState::Recovery(_), PlannerEvent::RecoveryChosen(choice)) => match choice {
            RecoveryChoice::Resume => (
                PlannerState::ImplementRequirements,
                seq![PlannerAction::AppendAttemptingRecovery],
            ),
            RecoveryChoice::MarkComplete => (
                PlannerState::PromptForRequirements,
                seq![
                    PlannerAction::AppendSkippedRecovery,
                    PlannerAction::ArchiveRequirements,
                    PlannerAction::ArchiveTodo,
                ],
            ),
            RecoveryChoice::Quit => (PlannerState::Quit, seq![]),
        },
        (PlannerState::PromptForRequirements, PlannerEvent::RequirementsEntered) => (
            PlannerState::RefineRequirements,
            seq![PlannerAction::WriteNewRequirements, PlannerAction::AppendRefiningRequirements],
        ),
        (PlannerState::RefineRequirements, PlannerEvent::ApprovalChosen(choice)) => match choice {
            ApprovalChoice::Approve => (
                PlannerState::ImplementRequirements,
                seq![
                    PlannerAction::PromoteRequirements,
                    PlannerAction::AppendGitHead,
                    PlannerAction::AppendStartImplementing,
                ],
            ),
            ApprovalChoice::Refine => (
                PlannerState::RefineRequirements,
                seq![PlannerAction::AppendRefiningRequirements],
            ),
            ApprovalChoice::Quit => (PlannerState::Quit, seq![]),
        },
        (PlannerState::ImplementRequirements, PlannerEvent::TodoCompleted) => (
            PlannerState::ImplementationComplete,
            seq![],
        ),
        (
            PlannerState::ImplementRequirements,
            PlannerEvent::CompletionChosen(choice),
        ) => match choice {
            CompletionChoice::Complete => (PlannerState::ImplementationComplete, seq![]),
            CompletionChoice::Continue => (
                PlannerState::ImplementRequirements,
                seq![PlannerAction::RunIteration],
            ),
            CompletionChoice::Quit => (PlannerState::Quit, seq![]),
        },
        (PlannerState::ImplementationComplete, PlannerEvent::Completing { again }) => (
            if again {
                PlannerState::PromptForRequirements
            } else {
                PlannerState::Quit
            },
            completion_actions(),
        ),
        (state, _) => (state, seq![]),
    }
}

/// The actions that finish an implementation, in order.
fn completion_steps() -> (steps: Vec<PlannerAction>)
    ensures
        steps@ == completion_actions(),
{
    let steps = vec![
        PlannerAction::ArchiveRequirements,
        PlannerAction::ArchiveTodo,
        PlannerAction::AppendCompletedRequirements,
        PlannerAction::GenerateCommitMessage,
        PlannerAction::StageFiles,
        PlannerAction::AppendGitCommit,
        PlannerAction::RestagePlanDir,
        PlannerAction::Commit,
    ];
    assert(steps@ =~= completion_actions());
    steps
}

/// Takes the planner from `state` to the state that follows on `event`, and
/// says what is to be done on the way, in order.
pub fn advance(state: PlannerState, event: PlannerEvent) -> (next: (
    PlannerState,
    Vec<PlannerAction>,
))
    ensures
        next.0 == transition(state, event).0,
        next.1@ == transition(state, event).1,
{
    match (state, event) {
        (
            PlannerState::Startup,
            PlannerEvent::StartupChecked { is_repo, branch, dirty_files, recovery },
        ) => {
            if !is_repo || branch == BranchConfirmChoice::Quit || dirty_files
                == DirtyFilesChoice::Quit {
                (PlannerState::Quit, Vec::new())
            } else {
                match recovery {
                    Some(info) => (PlannerState::Recovery(info), Vec::new()),
                    None => (PlannerState::PromptForRequirements, Vec::new()),
                }
            }
        },
        (PlannerState::Recovery(_), PlannerEvent::RecoveryChosen(choice)) => match choice {
            RecoveryChoice::Resume => (
                PlannerState::ImplementRequirements,
                vec![PlannerAction::AppendAttemptingRecovery],
            ),
            RecoveryChoice::MarkComplete => (
                PlannerState::PromptForRequirements,
                vec![
                    PlannerAction::AppendSkippedRecovery,
                    PlannerAction::ArchiveRequirements,
                    PlannerAction::ArchiveTodo,
                ],
            ),
            RecoveryChoice::Quit => (PlannerState::Quit, Vec::new()),
        },
        (PlannerState::PromptForRequirements, PlannerEvent::RequirementsEntered) => (
            PlannerState::RefineRequirements,
            vec![PlannerAction::WriteNewRequirements, PlannerAction::AppendRefiningRequirements],
        ),
        (PlannerState::RefineRequirements, PlannerEvent::ApprovalChosen(choice)) => match choice {
            ApprovalChoice::Approve => (
                PlannerState::ImplementRequirements,
                vec![
                    PlannerAction::PromoteRequirements,
                    PlannerAction::AppendGitHead,
                    PlannerAction::AppendStartImplementing,
                ],
            ),
            ApprovalChoice::Refine => (
                PlannerState::RefineRequirements,
                vec![PlannerAction::AppendRefiningRequirements],
            ),
            ApprovalChoice::Quit => (PlannerState::Quit, Vec::new()),
        },
        (PlannerState::ImplementRequirements, PlannerEvent::TodoCompleted) => (
            PlannerState::ImplementationComplete,
            Vec::new(),
        ),
        (
            PlannerState::ImplementRequirements,
            PlannerEvent::CompletionChosen(choice),
        ) => match choice {
            CompletionChoice::Complete => (PlannerState::ImplementationComplete, Vec::new()),
            CompletionChoice::Continue => (
                PlannerState::ImplementRequirements,
                vec![PlannerAction::RunIteration],
            ),
            CompletionChoice::Quit => (PlannerState::Quit, Vec::new()),
        },
        (PlannerState::ImplementationComplete, PlannerEvent::Completing { again }) => (
            if again {
                PlannerState::PromptForRequirements
            } else {
                PlannerState::Quit
            },
            completion_steps(),
        ),
        (state, _) => (state, Vec::new()),
    }
}

/// Whether an action appends an entry to the history.
pub open spec fn appends_history(action: PlannerAction) -> bool {
    ||| action == PlannerAction::AppendAttemptingRecovery
    ||| action == PlannerAction::AppendSkippedRecovery
    ||| action == PlannerAction::AppendRefiningRequirements
    ||| action == PlannerAction::AppendGitHead
    ||| action == PlannerAction::AppendStartImplementing
    ||| action == PlannerAction::AppendCompletedRequirements
    ||| action == PlannerAction::AppendGitCommit
}

/// Whether an action changes a plan file other than the history.
pub open spec fn changes_plan_files(action: PlannerAction) -> bool {
    ||| action == PlannerAction::WriteNewRequirements
    ||| action == PlannerAction::PromoteRequirements
    ||| action == PlannerAction::ArchiveRequirements
    ||| action == PlannerAction::ArchiveTodo
}

/// Once the user has quit, nothing happens any more.
pub proof fn lemma_quit_is_final(event: PlannerEvent)
    ensures
        transition(PlannerState::Quit, event) == (PlannerState::Quit, Seq::<PlannerAction>::empty()),
{
}

/// Every commit holds the history entry that announces it: whenever a
/// transition makes a commit, the two actions just before it are the
/// `GIT COMMIT` entry and then the staging of the plan directory that holds
/// the entry.
pub proof fn lemma_commit_follows_its_entry(state: PlannerState, event: PlannerEvent, i: int)
    requires
        0 <= i < transition(state, event).1.len(),
        transition(state, event).1[i] == PlannerAction::Commit,
    ensures
        i >= 2,
        transition(state, event).1[i - 2] == PlannerAction::AppendGitCommit,
        transition(state, event).1[i - 1] == PlannerAction::RestagePlanDir,
{
}

/// Every transition that changes a plan file also appends an entry to the
/// history.
pub proof fn lemma_plan_changes_are_logged(state: PlannerState, event: PlannerEvent, i: int)
    requires
        0 <= i < transition(state, event).1.len(),
        changes_plan_files(transition(state, event).1[i]),
    ensures
        exists|j: int|
            0 <= j < transition(state, event).1.len() && appends_history(
                #[trigger] transition(state, event).1[j],
            ),
{
    let actions = transition(state, event).1;
    if actions[0] == PlannerAction::AppendSkippedRecovery {
        assert(appends_history(actions[0]));
    } else if actions[0] == PlannerAction::WriteNewRequirements {
        assert(appends_history(actions[1]));
    } else if actions[0] == PlannerAction::PromoteRequirements {
        assert(appends_history(actions[1]));
    } else {
        assert(actions == completion_actions());
        assert(appends_history(actions[2]));
    }
}

} // verus!
