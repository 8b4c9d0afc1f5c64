//! Handlers: tasks that run when another task notifies them by name.

use vstd::prelude::*;
use crate::playbook::task::{Task, TaskView};

verus! {

/// A task addressable by notification name.
#[derive(Debug)]
pub struct Handler {
    pub task: Task,
}

impl View for Handler {
    type V = TaskView;

    open spec fn view(&self) -> TaskView {
        self.task@
    }
}

impl Clone for Handler {
    /// A copy of the handler.
    fn clone(&self) -> (r: Handler)
        ensures
            r@ == self@,
    {
        Handler { task: self.task.clone() }
    }
}

} // verus!
