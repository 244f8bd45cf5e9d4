//! What the lists of a report hold, row by row. How a row is drawn is left
//! to whoever prints it.

use vstd::prelude::*;
use crate::config::{pointed, Task, TaskView};
use crate::text::{join, joined};

verus! {

/// A task as a list of tasks shows it.
#[derive(Debug)]
pub struct TaskSummary {
    /// The task's place in the list, counted from one.
    pub number: usize,
    pub name: String,
    /// The description; empty where the task has none.
    pub description: String,
    /// The patterns with a comma and a space between them; empty where the
    /// task has none.
    pub patterns: String,
}

/// A task summary as plain values.
pub struct SummaryView {
    pub number: int,
    pub name: Seq<char>,
    pub description: Seq<char>,
    pub patterns: Seq<char>,
}

impl View for TaskSummary {
    type V = SummaryView;

    open spec fn view(&self) -> SummaryView {
        SummaryView {
            number: self.number as int,
            name: self.name@,
            description: self.description@,
            patterns: self.patterns@,
        }
    }
}

/// The summary of the task at position `i` of a list.
pub open spec fn summary_of(task: TaskView, i: int) -> SummaryView {
    SummaryView {
        number: i + 1,
        name: task.name,
        description: match task.description {
            Some(d) => d,
            None => Seq::empty(),
        },
        patterns: match task.patterns {
            Some(p) => joined(p, ", "@),
            None => Seq::empty(),
        },
    }
}

/// The rows of a list of tasks: one for each task, in their order,
/// numbered from one.
pub fn task_summaries(tasks: &Vec<&Task>) -> (rows: Vec<TaskSummary>)
    ensures
        rows@.len() == tasks@.len(),
        forall|i: int| 0 <= i < rows@.len() ==> (#[trigger] rows@[i])@ == summary_of(pointed(tasks@)[i]@, i),
{
    let mut rows: Vec<TaskSummary> = Vec::new();
    let mut i: usize = 0;
    while i < tasks.len()
        invariant
            i <= tasks.len(),
            rows@.len() == i,
            forall|k: int| 0 <= k < i ==> (#[trigger] rows@[k])@ == summary_of(pointed(tasks@)[k]@, k),
        decreases tasks.len() - i,
    {
        let task: &Task = tasks[i];
        let description = match &task.description {
            Some(d) => d.clone(),
            None => String::new(),
        };
        let patterns = match &task.patterns {
            Some(p) => join(p, ", "),
            None => String::new(),
        };
        rows.push(TaskSummary { number: i + 1, name: task.name.clone(), description, patterns });
        i = i + 1;
    }
    rows
}

/// A line of a list together with its place in it, counted from one.
#[derive(Debug)]
pub struct NumberedLine {
    pub number: usize,
    pub line: String,
}

/// The rows of a plain list: each line with its number, in their order.
pub fn numbered_lines(lines: &Vec<String>) -> (rows: Vec<NumberedLine>)
    ensures
        rows@.len() == lines@.len(),
        forall|i: int|
            0 <= i < rows@.len() ==> (#[trigger] rows@[i]).number == i + 1 && rows@[i].line@
                == lines@[i]@,
{
    let mut rows: Vec<NumberedLine> = Vec::new();
    let mut i: usize = 0;
    while i < lines.len()
        invariant
            i <= lines.len(),
            rows@.len() == i,
            forall|k: int|
                0 <= k < i ==> (#[trigger] rows@[k]).number == k + 1 && rows@[k].line@ == lines@[k]@,
        decreases lines.len() - i,
    {
        rows.push(NumberedLine { number: i + 1, line: lines[i].clone() });
        i = i + 1;
    }
    rows
}

} // verus!
