//! The configuration: the base branch and the tasks.

use vstd::prelude::*;
use crate::glob::{
    compile_pattern, glob_matches, glob_parses, lemma_matches_single, patterns_compile,
    PatternError,
};
use crate::text::{same_text, views};

verus! {

/// What the tool is told: the branch to compare with, and the tasks.
#[derive(Debug)]
pub struct Config {
    pub base: Option<String>,
    pub tasks: Option<Vec<Task>>,
}

/// A named list of command templates, run on the affected files that its
/// patterns match.
#[derive(Debug, Default, Clone)]
pub struct Task {
    pub name: String,
    pub description: Option<String>,
    pub patterns: Option<Vec<String>>,
    pub separator: Option<String>,
    pub commands: Vec<String>,
}

/// The text of an optional string.
pub open spec fn text_of(s: Option<String>) -> Option<Seq<char>> {
    match s {
        Some(t) => Some(t@),
        None => None,
    }
}

/// The texts of an optional list of strings.
pub open spec fn texts_of(list: Option<Vec<String>>) -> Option<Seq<Seq<char>>> {
    match list {
        Some(v) => Some(views(v@)),
        None => None,
    }
}

/// A task as plain text.
pub struct TaskView {
    pub name: Seq<char>,
    pub description: Option<Seq<char>>,
    pub patterns: Option<Seq<Seq<char>>>,
    pub separator: Option<Seq<char>>,
    pub commands: Seq<Seq<char>>,
}

impl View for Task {
    type V = TaskView;

    open spec fn view(&self) -> TaskView {
        TaskView {
            name: self.name@,
            description: text_of(self.description),
            patterns: texts_of(self.patterns),
            separator: text_of(self.separator),
            commands: views(self.commands@),
        }
    }
}

impl Task {
    /// How the task is shown in a list: its name, and its description in
    /// brackets where it has one.
    pub open spec fn spec_label(&self) -> Seq<char> {
        match self.description {
            Some(d) => self.name@ + " ("@ + d@ + ")"@,
            None => self.name@,
        }
    }

    /// The task's name, followed by its description in brackets where it
    /// has one.
    pub fn label(&self) -> (r: String)
        ensures
            r@ == self.spec_label(),
    {
        let mut out = self.name.clone();
        match &self.description {
            Some(d) => {
                out.append(" (");
                out.append(d.as_str());
                out.append(")");
            },
            None => {},
        }
        out
    }
}

/// The tasks of `tasks` whose name the glob `pattern` matches, in their
/// order.
pub open spec fn tasks_matching(tasks: Seq<Task>, pattern: Seq<char>) -> Seq<Task> {
    tasks.filter(|t: Task| glob_matches(pattern, t.name@))
}

/// What one more task adds to the tasks that match.
proof fn lemma_matching_step(tasks: Seq<Task>, pattern: Seq<char>, i: int)
    requires
        0 <= i < tasks.len(),
    ensures
        tasks_matching(tasks.take(i + 1), pattern) == if glob_matches(pattern, tasks[i].name@) {
            tasks_matching(tasks.take(i), pattern).push(tasks[i])
        } else {
            tasks_matching(tasks.take(i), pattern)
        },
{
    let pred = |t: Task| glob_matches(pattern, t.name@);
    assert(tasks.take(i + 1) =~= tasks.take(i).push(tasks[i]));
    tasks.take(i).lemma_filter_push(tasks[i], pred);
}

/// The tasks that the references point to.
pub open spec fn pointed(list: Seq<&Task>) -> Seq<Task> {
    list.map_values(|t: &Task| *t)
}

impl Config {
    /// The configured tasks; none where the list is absent.
    pub open spec fn task_list(&self) -> Seq<Task> {
        match self.tasks {
            Some(v) => v@,
            None => Seq::empty(),
        }
    }

    /// The first task named `task_name`, if there is one.
    pub fn get_task(&self, task_name: &str) -> (r: Option<&Task>)
        ensures
            match r {
                Some(t) => exists|i: int|
                    0 <= i < self.task_list().len() && self.task_list()[i] == *t && t.name@
                        == task_name@ && forall|j: int|
                        0 <= j < i ==> (#[trigger] self.task_list()[j]).name@ != task_name@,
                None => forall|j: int|
                    0 <= j < self.task_list().len() ==> (#[trigger] self.task_list()[j]).name@
                        != task_name@,
            },
    {
        match &self.tasks {
            None => None,
            Some(tasks) => {
                let mut i: usize = 0;
                while i < tasks.len()
                    invariant
                        i <= tasks.len(),
                        self.tasks == Some(*tasks),
                        forall|j: int| 0 <= j < i ==> (#[trigger] tasks@[j]).name@ != task_name@,
                    decreases tasks.len() - i,
                {
                    if same_text(tasks[i].name.as_str(), task_name) {
                        return Some(&tasks[i]);
                    }
                    i = i + 1;
                }
                None
            },
        }
    }

    /// The tasks whose name the glob `pattern` matches, in their order.
    /// `pattern` has to be a glob that compiles: `select_tasks` tests that.
    pub fn get_tasks(&self, pattern: &str) -> (r: Vec<&Task>)
        requires
            patterns_compile(seq![pattern@]),
        ensures
            pointed(r@) == tasks_matching(self.task_list(), pattern@),
    {
        let mut out: Vec<&Task> = Vec::new();
        let compiled = compile_pattern(pattern);
        match compiled {
            Err(_) => {},
            Ok(set) => {
                match &self.tasks {
                    None => {},
                    Some(tasks) => {
                        let mut i: usize = 0;
                        while i < tasks.len()
                            invariant
                                i <= tasks.len(),
                                self.tasks == Some(*tasks),
                                set.patterns() == seq![pattern@],
                                pointed(out@) == tasks_matching(tasks@.take(i as int), pattern@),
                            decreases tasks.len() - i,
                        {
                            proof {
                                lemma_matches_single(pattern@, tasks@[i as int].name@);
                                lemma_matching_step(tasks@, pattern@, i as int);
                            }
                            if set.matches(tasks[i].name.as_str()) {
                                out.push(&tasks[i]);
                            }
                            i = i + 1;
                        }
                        assert(tasks@.take(tasks@.len() as int) =~= tasks@);
                    },
                }
            },
        }
        out
    }

    /// The tasks whose name the glob `pattern` matches, or the reason why
    /// `pattern` gives no matcher.
    pub fn select_tasks(&self, pattern: &str) -> (r: Result<Vec<&Task>, PatternError>)
        ensures
            match r {
                Ok(list) => patterns_compile(seq![pattern@]) && pointed(list@) == tasks_matching(
                    self.task_list(),
                    pattern@,
                ),
                Err(e) => !patterns_compile(seq![pattern@]) && e == if glob_parses(pattern@) {
                    PatternError::Unbuildable
                } else {
                    PatternError::Invalid { index: 0 }
                },
            },
    {
        match compile_pattern(pattern) {
            Ok(_) => Ok(self.get_tasks(pattern)),
            Err(e) => Err(e),
        }
    }
}

impl Default for Config {
    /// The configuration that is written where none exists: `main` as the
    /// base, and two example tasks.
    fn default() -> (c: Config)
        ensures
            text_of(c.base) == Some("main"@),
            c.task_list().len() == 2,
            c.task_list()[0]@ == (TaskView {
                name: "lint"@,
                description: Some("Runs eslint for all affected files (example)"@),
                patterns: Some(seq!["*.{ts,tsx,js,jsx}"@]),
                separator: None,
                commands: seq!["npx eslint {files}"@],
            }),
            c.task_list()[1]@ == (TaskView {
                name: "prettier"@,
                description: Some("Runs prettier for all affected files (example)"@),
                patterns: Some(seq!["*.{ts,tsx,js,jsx}"@]),
                separator: None,
                commands: seq!["npx prettier --check {files}"@],
            }),
    {
        let mut lint_patterns: Vec<String> = Vec::new();
        lint_patterns.push(String::from_str("*.{ts,tsx,js,jsx}"));
        let mut lint_commands: Vec<String> = Vec::new();
        lint_commands.push(String::from_str("npx eslint {files}"));
        let lint = Task {
            name: String::from_str("lint"),
            description: Some(String::from_str("Runs eslint for all affected files (example)")),
            patterns: Some(lint_patterns),
            separator: None,
            commands: lint_commands,
        };
        let mut prettier_patterns: Vec<String> = Vec::new();
        prettier_patterns.push(String::from_str("*.{ts,tsx,js,jsx}"));
        let mut prettier_commands: Vec<String> = Vec::new();
        prettier_commands.push(String::from_str("npx prettier --check {files}"));
        let prettier = Task {
            name: String::from_str("prettier"),
            description: Some(
                String::from_str("Runs prettier for all affected files (example)"),
            ),
            patterns: Some(prettier_patterns),
            separator: None,
            commands: prettier_commands,
        };
        proof {
            assert(views(lint_patterns@) =~= seq!["*.{ts,tsx,js,jsx}"@]);
            assert(views(lint_commands@) =~= seq!["npx eslint {files}"@]);
            assert(views(prettier_patterns@) =~= seq!["*.{ts,tsx,js,jsx}"@]);
            assert(views(prettier_commands@) =~= seq!["npx prettier --check {files}"@]);
        }
        let mut tasks: Vec<Task> = Vec::new();
        tasks.push(lint);
        tasks.push(prettier);
        Config { base: Some(String::from_str("main")), tasks: Some(tasks) }
    }
}

} // verus!
