use g3_core::planner::{advance, PlannerAction, PlannerEvent};
use g3_core::state::{
    ApprovalChoice, BranchConfirmChoice, CompletionChoice, DirtyFilesChoice, PlannerState,
    RecoveryChoice, RecoveryInfo,
};

fn started(
    is_repo: bool,
    branch: BranchConfirmChoice,
    dirty_files: DirtyFilesChoice,
    recovery: Option<RecoveryInfo>,
) -> PlannerEvent {
    PlannerEvent::StartupChecked { is_repo, branch, dirty_files, recovery }
}

fn unfinished() -> RecoveryInfo {
    RecoveryInfo::detect(true, Some("2025-01-01 12:00:00".to_string()), false, None).unwrap()
}

#[test]
fn startup_goes_to_prompt_recovery_or_quit() {
    let (next, actions) = advance(
        PlannerState::Startup,
        started(true, BranchConfirmChoice::Confirm, DirtyFilesChoice::Proceed, None),
    );
    assert_eq!(next, PlannerState::PromptForRequirements);
    assert!(actions.is_empty());
    let (next, _) = advance(
        PlannerState::Startup,
        started(true, BranchConfirmChoice::Confirm, DirtyFilesChoice::Proceed, Some(unfinished())),
    );
    assert_eq!(next, PlannerState::Recovery(unfinished()));
    for event in [
        started(false, BranchConfirmChoice::Confirm, DirtyFilesChoice::Proceed, None),
        started(true, BranchConfirmChoice::Quit, DirtyFilesChoice::Proceed, Some(unfinished())),
        started(true, BranchConfirmChoice::Confirm, DirtyFilesChoice::Quit, None),
    ] {
        let (next, actions) = advance(PlannerState::Startup, event);
        assert_eq!(next, PlannerState::Quit);
        assert!(actions.is_empty());
    }
}

#[test]
fn recovery_resumes_marks_complete_or_quits() {
    let (next, actions) = advance(
        PlannerState::Recovery(unfinished()),
        PlannerEvent::RecoveryChosen(RecoveryChoice::Resume),
    );
    assert_eq!(next, PlannerState::ImplementRequirements);
    assert_eq!(actions, vec![PlannerAction::AppendAttemptingRecovery]);
    let (next, actions) = advance(
        PlannerState::Recovery(unfinished()),
        PlannerEvent::RecoveryChosen(RecoveryChoice::MarkComplete),
    );
    assert_eq!(next, PlannerState::PromptForRequirements);
    assert_eq!(
        actions,
        vec![
            PlannerAction::AppendSkippedRecovery,
            PlannerAction::ArchiveRequirements,
            PlannerAction::ArchiveTodo,
        ]
    );
    let (next, actions) = advance(
        PlannerState::Recovery(unfinished()),
        PlannerEvent::RecoveryChosen(RecoveryChoice::Quit),
    );
    assert_eq!(next, PlannerState::Quit);
    assert!(actions.is_empty());
}

#[test]
fn requirements_are_refined_until_approved() {
    let (next, actions) =
        advance(PlannerState::PromptForRequirements, PlannerEvent::RequirementsEntered);
    assert_eq!(next, PlannerState::RefineRequirements);
    assert_eq!(
        actions,
        vec![PlannerAction::WriteNewRequirements, PlannerAction::AppendRefiningRequirements]
    );
    let (next, actions) = advance(
        PlannerState::RefineRequirements,
        PlannerEvent::ApprovalChosen(ApprovalChoice::Refine),
    );
    assert_eq!(next, PlannerState::RefineRequirements);
    assert_eq!(actions, vec![PlannerAction::AppendRefiningRequirements]);
    let (next, actions) = advance(
        PlannerState::RefineRequirements,
        PlannerEvent::ApprovalChosen(ApprovalChoice::Approve),
    );
    assert_eq!(next, PlannerState::ImplementRequirements);
    assert_eq!(
        actions,
        vec![
            PlannerAction::PromoteRequirements,
            PlannerAction::AppendGitHead,
            PlannerAction::AppendStartImplementing,
        ]
    );
    let (next, actions) = advance(
        PlannerState::RefineRequirements,
        PlannerEvent::ApprovalChosen(ApprovalChoice::Quit),
    );
    assert_eq!(next, PlannerState::Quit);
    assert!(actions.is_empty());
}

#[test]
fn implementing_ends_when_the_todo_is_complete_or_the_user_says_so() {
    let (next, actions) = advance(PlannerState::ImplementRequirements, PlannerEvent::TodoCompleted);
    assert_eq!(next, PlannerState::ImplementationComplete);
    assert!(actions.is_empty());
    let (next, _) = advance(
        PlannerState::ImplementRequirements,
        PlannerEvent::CompletionChosen(CompletionChoice::Complete),
    );
    assert_eq!(next, PlannerState::ImplementationComplete);
    let (next, actions) = advance(
        PlannerState::ImplementRequirements,
        PlannerEvent::CompletionChosen(CompletionChoice::Continue),
    );
    assert_eq!(next, PlannerState::ImplementRequirements);
    assert_eq!(actions, vec![PlannerAction::RunIteration]);
    let (next, _) = advance(
        PlannerState::ImplementRequirements,
        PlannerEvent::CompletionChosen(CompletionChoice::Quit),
    );
    assert_eq!(next, PlannerState::Quit);
}

#[test]
fn completion_writes_the_commit_entry_before_the_commit() {
    let (next, actions) =
        advance(PlannerState::ImplementationComplete, PlannerEvent::Completing { again: true });
    assert_eq!(next, PlannerState::PromptForRequirements);
    assert_eq!(
        actions,
        vec![
            PlannerAction::ArchiveRequirements,
            PlannerAction::ArchiveTodo,
            PlannerAction::AppendCompletedRequirements,
            PlannerAction::GenerateCommitMessage,
            PlannerAction::StageFiles,
            PlannerAction::AppendGitCommit,
            PlannerAction::RestagePlanDir,
            PlannerAction::Commit,
        ]
    );
    let entry = actions.iter().position(|a| *a == PlannerAction::AppendGitCommit).unwrap();
    let restage = actions.iter().position(|a| *a == PlannerAction::RestagePlanDir).unwrap();
    let commit = actions.iter().position(|a| *a == PlannerAction::Commit).unwrap();
    assert!(entry < restage && restage < commit);
    let (next, actions) =
        advance(PlannerState::ImplementationComplete, PlannerEvent::Completing { again: false });
    assert_eq!(next, PlannerState::Quit);
    assert_eq!(actions.len(), 8);
}

#[test]
fn events_out_of_place_change_nothing() {
    let (next, actions) = advance(PlannerState::Quit, PlannerEvent::RequirementsEntered);
    assert_eq!(next, PlannerState::Quit);
    assert!(actions.is_empty());
    let (next, actions) = advance(PlannerState::Startup, PlannerEvent::TodoCompleted);
    assert_eq!(next, PlannerState::Startup);
    assert!(actions.is_empty());
    let (next, actions) = advance(
        PlannerState::PromptForRequirements,
        PlannerEvent::ApprovalChosen(ApprovalChoice::Approve),
    );
    assert_eq!(next, PlannerState::PromptForRequirements);
    assert!(actions.is_empty());
    let (next, actions) = advance(
        PlannerState::Recovery(unfinished()),
        PlannerEvent::Completing { again: true },
    );
    assert_eq!(next, PlannerState::Recovery(unfinished()));
    assert!(actions.is_empty());
}
