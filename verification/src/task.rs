//! The task entity: an id assigned by the store, a description, and a
//! completion flag that starts out false.

use vstd::prelude::*;

verus! {

/// Mathematical view of a task: what the contracts speak about.
#[verifier::ext_equal]
pub struct TaskView {
    pub id: nat,
    pub description: Seq<char>,
    pub is_completed: bool,
}

/// A single to-do item as the store holds it.
pub struct Task {
    pub id: usize,
    pub description: String,
    pub is_completed: bool,
}

impl View for Task {
    type V = TaskView;

    open spec fn view(&self) -> TaskView {
        TaskView { id: self.id as nat, description: self.description@, is_completed: self.is_completed }
    }
}

impl DeepView for Task {
    type V = TaskView;

    open spec fn deep_view(&self) -> TaskView {
        self@
    }
}

impl Task {
    /// A freshly created task: never completed at birth.
    pub fn new(id: usize, description: &str) -> (task: Task)
        ensures
            task@ == (TaskView { id: id as nat, description: description@, is_completed: false }),
    {
        Task { id, description: description.to_owned(), is_completed: false }
    }
}

} // verus!
