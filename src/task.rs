//! Tasks and the two markers that encode their state.
use vstd::prelude::*;

verus! {

/// Width, in characters, shared by both markers.
pub const MARKER_WIDTH: usize = 5;

/// The marker that opens the line of a task in the given state:
/// `- [x]` when finished, `- [ ]` when not.
pub open spec fn marker(finished: bool) -> Seq<char> {
    if finished {
        seq!['-', ' ', '[', 'x', ']']
    } else {
        seq!['-', ' ', '[', ' ', ']']
    }
}

/// Whether a line opens with the marker of the given state.
pub open spec fn opens_with(line: Seq<char>, finished: bool) -> bool {
    line.len() >= MARKER_WIDTH && line.take(MARKER_WIDTH as int) == marker(finished)
}

/// A task: its text and whether it is finished.
///
/// A task has no identity but its position in the store.
#[derive(Clone, Debug, PartialEq, Eq)]
pub struct Task {
    pub text: String,
    pub finished: bool,
}

impl View for Task {
    type V = (Seq<char>, bool);

    open spec fn view(&self) -> (Seq<char>, bool) {
        (self.text@, self.finished)
    }
}

/// The model of a list of tasks.
pub open spec fn tasks_view(ts: Seq<Task>) -> Seq<(Seq<char>, bool)> {
    ts.map_values(|t: Task| t@)
}

impl Task {
    /// A task with the given text and state.
    pub fn new(text: String, finished: bool) -> (r: Task)
        ensures
            r@ == (text@, finished),
    {
        Task { text, finished }
    }
}

/// How a stored line is shown in a listing.
#[derive(Clone, Copy, Debug, PartialEq, Eq, Structural)]
pub enum Style {
    /// A finished task.
    Finished,
    /// Any other line.
    Unfinished,
}

} // verus!
