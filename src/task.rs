//! One to-do entry and its two renderings.
use vstd::prelude::*;
use crate::text::{as_checkbox, checkbox, decimal, to_decimal};

verus! {

/// What a task is, as mathematics sees it.
pub struct TaskView {
    pub id: u32,
    pub task: Seq<char>,
    pub done: bool,
}

/// One entry of the to-do list.
pub struct TaskItem {
    pub id: u32,
    pub task: String,
    pub done: bool,
}

impl View for TaskItem {
    type V = TaskView;

    open spec fn view(&self) -> TaskView {
        TaskView { id: self.id, task: self.task@, done: self.done }
    }
}

/// The cells of a task's table row: id, checkbox, description.
pub open spec fn row_of(t: TaskView) -> Seq<Seq<char>> {
    seq![decimal(t.id as nat), checkbox(t.done), t.task]
}

/// The text line of a task: `"<id> <checkbox> <description>"`.
pub open spec fn line_of(t: TaskView) -> Seq<char> {
    decimal(t.id as nat) + seq![' '] + checkbox(t.done) + seq![' '] + t.task
}

impl TaskItem {
    /// A task that is not done yet.
    pub fn new(id: u32, task: String) -> (r: TaskItem)
        ensures
            r@ == (TaskView { id, task: task@, done: false }),
    {
        TaskItem { id, task, done: false }
    }

    /// A copy of the task.
    pub fn duplicate(&self) -> (r: TaskItem)
        ensures
            r@ == self@,
    {
        TaskItem { id: self.id, task: self.task.clone(), done: self.done }
    }

    /// The table row of the task, one cell per column.
    pub fn row(&self) -> (r: Vec<String>)
        ensures
            r@.map_values(|c: String| c@) == row_of(self@),
    {
        let mut r: Vec<String> = Vec::new();
        r.push(to_decimal(self.id as u64));
        r.push(as_checkbox(&self.done));
        r.push(self.task.clone());
        assert(r@.map_values(|c: String| c@) =~= row_of(self@));
        r
    }

    /// The text line of the task.
    pub fn line(&self) -> (r: String)
        ensures
            r@ == line_of(self@),
    {
        proof {
            reveal_strlit(" ");
        }
        let mut s = to_decimal(self.id as u64);
        s.append(" ");
        let b = as_checkbox(&self.done);
        s.append(b.as_str());
        s.append(" ");
        s.append(self.task.as_str());
        s
    }
}

} // verus!
