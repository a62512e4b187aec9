//! The planner's state machine: its states, the answers a user can give at
//! each prompt, and the transition from a state and an event to the next
//! state and the actions to carry out.

use crate::text::{case_folded, equals_str, fold_case, to_chars, trim, trimmed};
use vstd::prelude::*;

verus! {

/// What is left in the plan directory of a run that did not finish.
#[derive(Debug, Clone, PartialEq, Eq)]
pub struct RecoveryInfo {
    /// Whether `current_requirements.md` exists.
    pub has_current_requirements: bool,
    /// When `current_requirements.md` was last changed, if it exists and the
    /// time could be read.
    pub requirements_modified: Option<String>,
    /// Whether `todo.g3.md` exists.
    pub has_todo: bool,
    /// What `todo.g3.md` holds, if it exists and could be read.
    pub todo_contents: Option<String>,
}

impl RecoveryInfo {
    /// What there is to recover, from what was found in the plan directory:
    /// whether each of the two files exists, the time the requirements were
    /// last changed and the text of the todo list. Nothing is to be recovered
    /// where neither file exists. What is given for a file that does not exist
    /// is left out.
    pub fn detect(
        has_current_requirements: bool,
        requirements_modified: Option<String>,
        has_todo: bool,
        todo_contents: Option<String>,
    ) -> (found: Option<Self>)
        ensures
            found is Some <==> (has_current_requirements || has_todo),
            found matches Some(info) ==> {
                &&& info.has_current_requirements == has_current_requirements
                &&& info.has_todo == has_todo
                &&& info.requirements_modified == if has_current_requirements {
                    requirements_modified
                } else {
                    None
                }
                &&& info.todo_contents == if has_todo {
                    todo_contents
                } else {
                    None
                }
            },
    {
        if !has_current_requirements && !has_todo {
            return None;
        }
        Some(
            RecoveryInfo {
                has_current_requirements,
                requirements_modified: if has_current_requirements {
                    requirements_modified
                } else {
                    None
                },
                has_todo,
                todo_contents: if has_todo {
                    todo_contents
                } else {
                    None
                },
            },
        )
    }
}

/// The state of the planning workflow.
#[derive(Debug, Clone, PartialEq, Eq)]
pub enum PlannerState {
    /// Nothing was checked yet.
    Startup,
    /// An unfinished run was found.
    Recovery(RecoveryInfo),
    /// The user is asked for new requirements.
    PromptForRequirements,
    /// The requirements are being refined.
    RefineRequirements,
    /// The requirements are being implemented.
    ImplementRequirements,
    /// The implementation is done and is being archived and committed.
    ImplementationComplete,
    /// The user quit.
    Quit,
}

/// What the user chose on being told of an unfinished run.
#[derive(Debug, Clone, Copy, PartialEq, Eq, Structural)]
pub enum RecoveryChoice {
    /// Resume the unfinished run.
    Resume,
    /// Count the unfinished run as done and go on to new requirements.
    MarkComplete,
    /// Quit.
    Quit,
}

/// What the user chose on being shown the refined requirements.
#[derive(Debug, Clone, Copy, PartialEq, Eq, Structural)]
pub enum ApprovalChoice {
    /// Implement them.
    Approve,
    /// Refine them further.
    Refine,
    /// Quit.
    Quit,
}

/// What the user chose on being asked whether the implementation is done.
#[derive(Debug, Clone, Copy, PartialEq, Eq, Structural)]
pub enum CompletionChoice {
    /// It is done.
    Complete,
    /// It is not: go on implementing.
    Continue,
    /// Quit.
    Quit,
}

/// What the user chose on being shown the current branch.
#[derive(Debug, Clone, Copy, PartialEq, Eq, Structural)]
pub enum BranchConfirmChoice {
    /// The branch is the right one.
    Confirm,
    /// It is not: quit.
    Quit,
}

/// What the user chose on being warned of uncommitted files.
#[derive(Debug, Clone, Copy, PartialEq, Eq, Structural)]
pub enum DirtyFilesChoice {
    /// Go on all the same.
    Proceed,
    /// Quit.
    Quit,
}

/// What an answer at a prompt says, whatever the prompt.
#[derive(Debug, Clone, Copy, PartialEq, Eq, Structural)]
pub enum Answer {
    /// `y` or `yes`.
    Yes,
    /// `n` or `no`.
    No,
    /// `q` or `quit`.
    Quit,
    /// Nothing but white space.
    Empty,
    /// Anything else.
    Unknown,
}

/// What the input says: the input is read without the white space around it
/// and without regard to the case of its letters.
pub open spec fn answer_of(input: Seq<char>) -> Answer {
    let word = fold_case(trim(input));
    if word == "y"@ || word == "yes"@ {
        Answer::Yes
    } else if word == "n"@ || word == "no"@ {
        Answer::No
    } else if word == "q"@ || word == "quit"@ {
        Answer::Quit
    } else if word.len() == 0 {
        Answer::Empty
    } else {
        Answer::Unknown
    }
}

/// Reads an answer given at a prompt.
pub fn read_answer(input: &str) -> (answer: Answer)
    ensures
        answer == answer_of(input@),
{
    let word = case_folded(&trimmed(&to_chars(input)));
    if equals_str(&word, "y") || equals_str(&word, "yes") {
        Answer::Yes
    } else if equals_str(&word, "n") || equals_str(&word, "no") {
        Answer::No
    } else if equals_str(&word, "q") || equals_str(&word, "quit") {
        Answer::Quit
    } else if word.len() == 0 {
        Answer::Empty
    } else {
        Answer::Unknown
    }
}

impl RecoveryChoice {
    /// The choice that an answer stands for: yes resumes, no marks the run
    /// complete, and there is no default.
    pub open spec fn of_answer(answer: Answer) -> Option<RecoveryChoice> {
        match answer {
            Answer::Yes => Some(RecoveryChoice::Resume),
            Answer::No => Some(RecoveryChoice::MarkComplete),
            Answer::Quit => Some(RecoveryChoice::Quit),
            _ => None,
        }
    }

    /// Reads the user's choice; `None` where the input is not understood.
    pub fn from_input(input: &str) -> (choice: Option<Self>)
        ensures
            choice == Self::of_answer(answer_of(input@)),
    {
        match read_answer(input) {
            Answer::Yes => Some(RecoveryChoice::Resume),
            Answer::No => Some(RecoveryChoice::MarkComplete),
            Answer::Quit => Some(RecoveryChoice::Quit),
            _ => None,
        }
    }
}

impl ApprovalChoice {
    /// The choice that an answer stands for: yes approves, no refines, and
    /// there is no default.
    pub open spec fn of_answer(answer: Answer) -> Option<ApprovalChoice> {
        match answer {
            Answer::Yes => Some(ApprovalChoice::Approve),
            Answer::No => Some(ApprovalChoice::Refine),
            Answer::Quit => Some(ApprovalChoice::Quit),
            _ => None,
        }
    }

    /// Reads the user's choice; `None` where the input is not understood.
    pub fn from_input(input: &str) -> (choice: Option<Self>)
        ensures
            choice == Self::of_answer(answer_of(input@)),
    {
        match read_answer(input) {
            Answer::Yes => Some(ApprovalChoice::Approve),
            Answer::No => Some(ApprovalChoice::Refine),
            Answer::Quit => Some(ApprovalChoice::Quit),
            _ => None,
        }
    }
}

impl CompletionChoice {
    /// The choice that an answer stands for: yes and the empty answer say
    /// complete, no says continue.
    pub open spec fn of_answer(answer: Answer) -> Option<CompletionChoice> {
        match answer {
            Answer::Yes | Answer::Empty => Some(CompletionChoice::Complete),
            Answer::No => Some(CompletionChoice::Continue),
            Answer::Quit => Some(CompletionChoice::Quit),
            Answer::Unknown => None,
        }
    }

    /// Reads the user's choice; `None` where the input is not understood.
    pub fn from_input(input: &str) -> (choice: Option<Self>)
        ensures
            choice == Self::of_answer(answer_of(input@)),
    {
        match read_answer(input) {
            Answer::Yes | Answer::Empty => Some(CompletionChoice::Complete),
            Answer::No => Some(CompletionChoice::Continue),
            Answer::Quit => Some(CompletionChoice::Quit),
            Answer::Unknown => None,
        }
    }
}

impl BranchConfirmChoice {
    /// The choice that an answer stands for: yes and the empty answer confirm,
    /// no and quit both quit.
    pub open spec fn of_answer(answer: Answer) -> Option<BranchConfirmChoice> {
        match answer {
            Answer::Yes | Answer::Empty => Some(BranchConfirmChoice::Confirm),
            Answer::No | Answer::Quit => Some(BranchConfirmChoice::Quit),
            Answer::Unknown => None,
        }
    }

    /// Reads the user's choice; `None` where the input is not understood.
    pub fn from_input(input: &str) -> (choice: Option<Self>)
        ensures
            choice == Self::of_answer(answer_of(input@)),
    {
        match read_answer(input) {
            Answer::Yes | Answer::Empty => Some(BranchConfirmChoice::Confirm),
            Answer::No | Answer::Quit => Some(BranchConfirmChoice::Quit),
            Answer::Unknown => None,
        }
    }
}

impl DirtyFilesChoice {
    /// The choice that an answer stands for: yes and the empty answer proceed,
    /// no and quit both quit.
    pub open spec fn of_answer(answer: Answer) -> Option<DirtyFilesChoice> {
        match answer {
            Answer::Yes | Answer::Empty => Some(DirtyFilesChoice::Proceed),
            Answer::No | Answer::Quit => Some(DirtyFilesChoice::Quit),
            Answer::Unknown => None,
        }
    }

    /// Reads the user's choice; `None` where the input is not understood.
    pub fn from_input(input: &str) -> (choice: Option<Self>)
        ensures
            choice == Self::of_answer(answer_of(input@)),
    {
        match read_answer(input) {
            Answer::Yes | Answer::Empty => Some(DirtyFilesChoice::Proceed),
            Answer::No | Answer::Quit => Some(DirtyFilesChoice::Quit),
            Answer::Unknown => None,
        }
    }
}

} // verus!
