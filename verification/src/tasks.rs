//! What a task runs: which files it is given, what its commands read once
//! the placeholders are filled, and what the run comes to when its
//! commands have ended.
//!
//! The library starts no process. Whoever runs it starts the commands of a
//! plan, all of one task together, waits for each of them, and hands the
//! results to `task_outcome`.

use vstd::prelude::*;
use crate::config::{pointed, tasks_matching, Task, TaskView};
use crate::glob::{
    compile_failure, compile_patterns, glob_parses, matches_any, patterns_compile, PatternError,
    PatternSet,
};
use crate::string_set::StringSet;
use crate::text::{join, joined, replace, replace_all, views};
use crate::workspace::Workspace;

verus! {

/// A command of a task: the template as configured, and the text to run.
#[derive(Debug)]
pub struct PlannedCommand {
    pub template: String,
    pub text: String,
}

/// A planned command as plain text.
pub struct CommandView {
    pub template: Seq<char>,
    pub text: Seq<char>,
}

impl View for PlannedCommand {
    type V = CommandView;

    open spec fn view(&self) -> CommandView {
        CommandView { template: self.template@, text: self.text@ }
    }
}

/// What is to be done for one task.
#[derive(Debug)]
pub enum TaskPlan {
    /// None of the affected files exists any more: nothing is run.
    NoFilesAffected,
    /// No existing affected file matches the task's patterns: nothing is
    /// run.
    NoFilesMatched,
    /// These commands are run, all at once.
    Commands(Vec<PlannedCommand>),
}

/// A plan as plain text.
pub enum PlanView {
    NoFilesAffected,
    NoFilesMatched,
    Commands(Seq<CommandView>),
}

impl View for TaskPlan {
    type V = PlanView;

    open spec fn view(&self) -> PlanView {
        match self {
            TaskPlan::NoFilesAffected => PlanView::NoFilesAffected,
            TaskPlan::NoFilesMatched => PlanView::NoFilesMatched,
            TaskPlan::Commands(list) => PlanView::Commands(
                list@.map_values(|c: PlannedCommand| c@),
            ),
        }
    }
}

/// The files of `files` that are in `on_disk`, in their order.
pub open spec fn existing(files: Seq<Seq<char>>, on_disk: Set<Seq<char>>) -> Seq<Seq<char>> {
    files.filter(|f: Seq<char>| on_disk.contains(f))
}

/// The files of `files` that one of `patterns` matches, in their order.
pub open spec fn matching(files: Seq<Seq<char>>, patterns: Seq<Seq<char>>) -> Seq<Seq<char>> {
    files.filter(|f: Seq<char>| matches_any(patterns, f))
}

/// The patterns that a task selects its files by: its own, or the one
/// pattern `**/*` where it has none.
pub open spec fn file_patterns(task: TaskView) -> Seq<Seq<char>> {
    match task.patterns {
        Some(patterns) => patterns,
        None => seq!["**/*"@],
    }
}

/// What a task puts between the items of a list: its separator, or one
/// space where it has none.
pub open spec fn separator(task: TaskView) -> Seq<char> {
    match task.separator {
        Some(s) => s,
        None => " "@,
    }
}

/// A command template with `{files}` and then `{projects}` filled in.
pub open spec fn command_text(template: Seq<char>, files: Seq<char>, projects: Seq<char>) -> Seq<
    char,
> {
    replace_all(replace_all(template, "{files}"@, files), "{projects}"@, projects)
}

/// The commands of a task for the given texts, in the order of the
/// templates.
pub open spec fn commands_for(templates: Seq<Seq<char>>, files: Seq<char>, projects: Seq<char>) -> Seq<
    CommandView,
> {
    templates.map_values(
        |t: Seq<char>| CommandView { template: t, text: command_text(t, files, projects) },
    )
}

/// What is planned for `task`, given the affected files in their order,
/// the set of files that exist, and the affected projects in their order.
pub open spec fn plan_of(
    task: TaskView,
    files: Seq<Seq<char>>,
    on_disk: Set<Seq<char>>,
    projects: Seq<Seq<char>>,
) -> Result<PlanView, PatternError> {
    let present = existing(files, on_disk);
    if present.len() == 0 {
        Ok(PlanView::NoFilesAffected)
    } else {
        match compile_failure(file_patterns(task)) {
            Some(e) => Err(e),
            None => {
                let hits = matching(present, file_patterns(task));
                if hits.len() == 0 {
                    Ok(PlanView::NoFilesMatched)
                } else {
                    Ok(
                        PlanView::Commands(
                            commands_for(
                                task.commands,
                                joined(hits, separator(task)),
                                joined(projects, separator(task)),
                            ),
                        ),
                    )
                }
            },
        }
    }
}

/// The plan, or the error, as plain text.
pub open spec fn plan_view(r: Result<TaskPlan, PatternError>) -> Result<PlanView, PatternError> {
    match r {
        Ok(plan) => Ok(plan@),
        Err(e) => Err(e),
    }
}

/// The strings of `files` that are in `on_disk`.
fn keep_existing(files: &Vec<String>, on_disk: &StringSet) -> (r: Vec<String>)
    ensures
        views(r@) == existing(views(files@), on_disk@),
{
    let ghost pred = |f: Seq<char>| on_disk@.contains(f);
    let mut out: Vec<String> = Vec::new();
    let mut i: usize = 0;
    proof {
        assert(views(files@).take(0) =~= Seq::<Seq<char>>::empty());
        Seq::<Seq<char>>::empty().lemma_all_neg_filter_empty(pred);
        assert(views(out@) =~= Seq::<Seq<char>>::empty());
    }
    while i < files.len()
        invariant
            i <= files.len(),
            pred == |f: Seq<char>| on_disk@.contains(f),
            views(out@) == views(files@).take(i as int).filter(pred),
        decreases files.len() - i,
    {
        let ghost before = views(out@);
        proof {
            assert(views(files@).take(i + 1) =~= views(files@).take(i as int).push(
                files@[i as int]@,
            ));
            views(files@).take(i as int).lemma_filter_push(files@[i as int]@, pred);
        }
        if on_disk.contains(files[i].as_str()) {
            out.push(files[i].clone());
            assert(views(out@) =~= before.push(files@[i as int]@));
        }
        i = i + 1;
    }
    assert(views(files@).take(files@.len() as int) =~= views(files@));
    out
}

/// The strings of `files` that a pattern of `set` matches.
fn keep_matching(files: &Vec<String>, set: &PatternSet) -> (r: Vec<String>)
    ensures
        views(r@) == matching(views(files@), set.patterns()),
{
    let ghost pred = |f: Seq<char>| matches_any(set.patterns(), f);
    let mut out: Vec<String> = Vec::new();
    let mut i: usize = 0;
    proof {
        assert(views(files@).take(0) =~= Seq::<Seq<char>>::empty());
        Seq::<Seq<char>>::empty().lemma_all_neg_filter_empty(pred);
        assert(views(out@) =~= Seq::<Seq<char>>::empty());
    }
    while i < files.len()
        invariant
            i <= files.len(),
            pred == |f: Seq<char>| matches_any(set.patterns(), f),
            views(out@) == views(files@).take(i as int).filter(pred),
        decreases files.len() - i,
    {
        let ghost before = views(out@);
        proof {
            assert(views(files@).take(i + 1) =~= views(files@).take(i as int).push(
                files@[i as int]@,
            ));
            views(files@).take(i as int).lemma_filter_push(files@[i as int]@, pred);
        }
        if set.matches(files[i].as_str()) {
            out.push(files[i].clone());
            assert(views(out@) =~= before.push(files@[i as int]@));
        }
        i = i + 1;
    }
    assert(views(files@).take(files@.len() as int) =~= views(files@));
    out
}

/// The commands of a task with their placeholders filled.
fn fill_commands(templates: &Vec<String>, files: &str, projects: &str) -> (r: Vec<PlannedCommand>)
    ensures
        r@.map_values(|c: PlannedCommand| c@) == commands_for(views(templates@), files@, projects@),
{
    let mut out: Vec<PlannedCommand> = Vec::new();
    let mut i: usize = 0;
    while i < templates.len()
        invariant
            i <= templates.len(),
            out@.len() == i,
            forall|k: int|
                0 <= k < i ==> (#[trigger] out@[k])@ == (CommandView {
                    template: templates@[k]@,
                    text: command_text(templates@[k]@, files@, projects@),
                }),
        decreases templates.len() - i,
    {
        let with_files = replace(templates[i].as_str(), "{files}", files);
        let text = replace(with_files.as_str(), "{projects}", projects);
        out.push(PlannedCommand { template: templates[i].clone(), text });
        i = i + 1;
    }
    assert(out@.map_values(|c: PlannedCommand| c@) =~= commands_for(
        views(templates@),
        files@,
        projects@,
    ));
    out
}

/// Plans one task. Of the affected `files`, those that are not in
/// `on_disk` are dropped, and then those that none of the task's patterns
/// matches; a task without patterns takes every file. What is left is
/// joined with the task's separator, and so are the affected `projects`;
/// the two texts fill the placeholders `{files}` and `{projects}` of each
/// command template.
///
/// That no file is left is no error. The one error is a pattern that is no
/// glob, or patterns of which no set can be built.
pub fn plan_task(task: &Task, files: &StringSet, on_disk: &StringSet, projects: &StringSet) -> (r:
    Result<TaskPlan, PatternError>)
    ensures
        plan_view(r) == plan_of(task@, files.order(), on_disk@, projects.order()),
{
    let present = keep_existing(files.items(), on_disk);
    if present.len() == 0 {
        return Ok(TaskPlan::NoFilesAffected);
    }
    let compiled = match &task.patterns {
        Some(patterns) => compile_patterns(patterns),
        None => {
            let mut all: Vec<String> = Vec::new();
            all.push(String::from_str("**/*"));
            assert(views(all@) =~= seq!["**/*"@]);
            compile_patterns(&all)
        },
    };
    let set = match compiled {
        Ok(set) => set,
        Err(e) => {
            return Err(e);
        },
    };
    let hits = keep_matching(&present, &set);
    if hits.len() == 0 {
        return Ok(TaskPlan::NoFilesMatched);
    }
    let between = match &task.separator {
        Some(s) => s.as_str(),
        None => " ",
    };
    let files_text = join(&hits, between);
    let projects_text = join(projects.items(), between);
    let commands = fill_commands(&task.commands, files_text.as_str(), projects_text.as_str());
    Ok(TaskPlan::Commands(commands))
}

/// A selected task and its plan.
#[derive(Debug)]
pub struct TaskRun<'a> {
    pub task: &'a Task,
    /// The plan, or why the task's patterns gave no matcher.
    pub plan: Result<TaskPlan, PatternError>,
}

/// Why no task was planned.
#[derive(Debug)]
pub enum TaskRunError {
    /// The workspace has no configuration.
    NoConfiguration,
    /// The pattern that selects the tasks gives no matcher.
    TaskPattern(PatternError),
}

/// The runs are those of `tasks`, each with its plan.
pub open spec fn runs_of(
    runs: Seq<TaskRun<'_>>,
    tasks: Seq<Task>,
    files: Seq<Seq<char>>,
    on_disk: Set<Seq<char>>,
    projects: Seq<Seq<char>>,
) -> bool {
    &&& runs.len() == tasks.len()
    &&& forall|i: int|
        0 <= i < runs.len() ==> *(#[trigger] runs[i]).task == tasks[i] && plan_view(runs[i].plan)
            == plan_of(tasks[i]@, files, on_disk, projects)
}

/// `r` is what `run_tasks` owes for this workspace, pattern and set of
/// existing files.
pub open spec fn runs_selected(
    workspace: &Workspace,
    pattern: Seq<char>,
    on_disk: Set<Seq<char>>,
    r: Result<Vec<TaskRun<'_>>, TaskRunError>,
) -> bool {
    match workspace.configuration() {
        None => r matches Err(TaskRunError::NoConfiguration),
        Some(config) => if patterns_compile(seq![pattern]) {
            r matches Ok(runs) && runs_of(
                runs@,
                tasks_matching(config.task_list(), pattern),
                workspace.affected_files_in_order(),
                on_disk,
                workspace.affected_projects_in_order(),
            )
        } else {
            r matches Err(TaskRunError::TaskPattern(e)) && e == if glob_parses(pattern) {
                PatternError::Unbuildable
            } else {
                PatternError::Invalid { index: 0 }
            }
        },
    }
}

/// Selects the tasks whose name the glob `pattern` matches, and plans each
/// of them, in their configured order. `on_disk` holds the affected files
/// that still exist. That no task is selected is no error: the list is
/// empty then.
///
/// The tasks of the list are to be run one after the other, and a task
/// whose plan is an error ends the run where it stands.
pub fn run_tasks<'a>(workspace: &'a Workspace, pattern: &str, on_disk: &StringSet) -> (r: Result<
    Vec<TaskRun<'a>>,
    TaskRunError,
>)
    ensures
        runs_selected(workspace, pattern@, on_disk@, r),
{
    let config = match workspace.config() {
        Some(config) => config,
        None => {
            return Err(TaskRunError::NoConfiguration);
        },
    };
    let tasks = match config.select_tasks(pattern) {
        Ok(tasks) => tasks,
        Err(e) => {
            return Err(TaskRunError::TaskPattern(e));
        },
    };
    let files = workspace.affected_files();
    let projects = workspace.affected_projects();
    let mut runs: Vec<TaskRun<'a>> = Vec::new();
    let mut i: usize = 0;
    while i < tasks.len()
        invariant
            i <= tasks.len(),
            files.order() == workspace.affected_files_in_order(),
            projects.order() == workspace.affected_projects_in_order(),
            runs_of(
                runs@,
                pointed(tasks@).take(i as int),
                files.order(),
                on_disk@,
                projects.order(),
            ),
        decreases tasks.len() - i,
    {
        let task: &'a Task = tasks[i];
        let plan = plan_task(task, &files, on_disk, &projects);
        runs.push(TaskRun { task, plan });
        i = i + 1;
    }
    assert(pointed(tasks@).take(tasks@.len() as int) =~= pointed(tasks@));
    Ok(runs)
}

/// How a command ended.
#[derive(Debug, Clone, Copy, PartialEq, Eq)]
pub enum CommandStatus {
    /// It ran and exited with success.
    Succeeded,
    /// It ran and exited with a failure.
    Failed,
    /// It could not be started.
    NotStarted,
    /// It was started, and waiting for it failed.
    NotAwaited,
    /// The work that ran it broke off.
    Panicked,
}

/// A command that was run, and how it ended.
#[derive(Debug)]
pub struct CommandResult {
    /// The command's template.
    pub command: String,
    pub status: CommandStatus,
}

/// Why a task's run failed.
#[derive(Debug)]
pub enum CommandError {
    /// This command exited with a failure.
    CommandFailure { command: String },
    /// This command could not be started.
    StartFailure { command: String },
    /// Waiting for this command failed.
    WaitFailure { command: String },
    /// The work that ran this command broke off.
    Panicked { command: String },
}

impl CommandError {
    /// The template of the command that the error names.
    pub open spec fn command(&self) -> Seq<char> {
        match self {
            CommandError::CommandFailure { command } => command@,
            CommandError::StartFailure { command } => command@,
            CommandError::WaitFailure { command } => command@,
            CommandError::Panicked { command } => command@,
        }
    }

    /// The way of ending that the error stands for.
    pub open spec fn status(&self) -> CommandStatus {
        match self {
            CommandError::CommandFailure { .. } => CommandStatus::Failed,
            CommandError::StartFailure { .. } => CommandStatus::NotStarted,
            CommandError::WaitFailure { .. } => CommandStatus::NotAwaited,
            CommandError::Panicked { .. } => CommandStatus::Panicked,
        }
    }
}

/// What a task's run comes to, once each of its commands has ended: success
/// where all succeeded, else the failure of the first command, in the
/// order of the list, that did not. A failure leaves the other commands
/// as they are: all of them have been waited for before this is asked.
pub fn task_outcome(results: &Vec<CommandResult>) -> (r: Result<(), CommandError>)
    ensures
        match r {
            Ok(_) => forall|i: int|
                0 <= i < results@.len() ==> (#[trigger] results@[i]).status
                    == CommandStatus::Succeeded,
            Err(e) => exists|i: int|
                0 <= i < results@.len() && (#[trigger] results@[i]).status
                    != CommandStatus::Succeeded && e.status() == results@[i].status && e.command()
                    == results@[i].command@ && forall|j: int|
                    0 <= j < i ==> (#[trigger] results@[j]).status == CommandStatus::Succeeded,
        },
{
    let mut i: usize = 0;
    while i < results.len()
        invariant
            i <= results.len(),
            forall|j: int| 0 <= j < i ==> (#[trigger] results@[j]).status == CommandStatus::Succeeded,
        decreases results.len() - i,
    {
        let command = results[i].command.clone();
        match results[i].status {
            CommandStatus::Succeeded => {},
            CommandStatus::Failed => {
                return Err(CommandError::CommandFailure { command });
            },
            CommandStatus::NotStarted => {
                return Err(CommandError::StartFailure { command });
            },
            CommandStatus::NotAwaited => {
                return Err(CommandError::WaitFailure { command });
            },
            CommandStatus::Panicked => {
                return Err(CommandError::Panicked { command });
            },
        }
        i = i + 1;
    }
    Ok(())
}

} // verus!
