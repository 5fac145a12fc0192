//! What each command asks of the store.
use vstd::prelude::*;
use crate::store::{new_record, record_of};

verus! {

/// A command, as given on the command line.
#[derive(Clone, Debug, PartialEq, Eq)]
pub enum Command {
    /// Add an unfinished task with this text.
    Add { quest: String },
    /// List tasks; `all` includes finished ones, `interactive` lets the user
    /// set each task's state.
    List { all: bool, interactive: bool },
}

/// What to do for a command.
#[derive(Clone, Debug, PartialEq, Eq)]
pub enum Action {
    /// Append `record` to the store (creating it if need be) and confirm
    /// that `quest` was added.
    Append { quest: String, record: String },
    /// Show every line of the store.
    ListAll,
    /// Show the lines of unfinished tasks.
    ListUnfinished,
    /// Run an interactive session over every task.
    Interactive,
}

/// The action for a command. An interactive listing always covers every
/// task, whether or not finished ones were asked for.
pub fn action_for(cmd: Command) -> (r: Action)
    ensures
        match cmd {
            Command::Add { quest } => r matches Action::Append { quest: q, record } && q@ == quest@
                && record@ == record_of((quest@, false)),
            Command::List { all, interactive } => r == if interactive {
                Action::Interactive
            } else if all {
                Action::ListAll
            } else {
                Action::ListUnfinished
            },
        },
{
    match cmd {
        Command::Add { quest } => {
            let record = new_record(quest.as_str());
            Action::Append { quest, record }
        },
        Command::List { all, interactive } => {
            if interactive {
                Action::Interactive
            } else if all {
                Action::ListAll
            } else {
                Action::ListUnfinished
            }
        },
    }
}

} // verus!
