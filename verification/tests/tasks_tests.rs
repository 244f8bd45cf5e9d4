use affected::config::{Config, Task};
use affected::glob::PatternError;
use affected::string_set::StringSet;
use affected::tasks::{
    plan_task, run_tasks, task_outcome, CommandError, CommandResult, CommandStatus, TaskPlan,
    TaskRunError,
};
use affected::workspace::Workspace;

fn set(items: &[&str]) -> StringSet {
    StringSet::from_vec(items.iter().map(|s| s.to_string()).collect())
}

fn task(patterns: Option<&[&str]>, separator: Option<&str>, commands: &[&str]) -> Task {
    Task {
        name: "t".to_string(),
        description: None,
        patterns: patterns.map(|p| p.iter().map(|s| s.to_string()).collect()),
        separator: separator.map(|s| s.to_string()),
        commands: commands.iter().map(|s| s.to_string()).collect(),
    }
}

fn texts(plan: TaskPlan) -> Vec<String> {
    match plan {
        TaskPlan::Commands(commands) => commands.into_iter().map(|c| c.text).collect(),
        other => panic!("unexpected: {:?}", other),
    }
}

#[test]
fn task_filtering_keeps_the_files_that_match() {
    let t = task(Some(&["*.ts"]), None, &["echo {files}"]);
    let files = set(&["a.ts", "b.md"]);
    let plan = plan_task(&t, &files, &files, &StringSet::new()).unwrap();
    assert_eq!(texts(plan), vec!["echo a.ts"]);
}

#[test]
fn files_that_are_gone_are_dropped_first() {
    let t = task(Some(&["*.ts"]), None, &["echo {files}"]);
    let files = set(&["a.ts", "gone.ts", "c.ts"]);
    let plan = plan_task(&t, &files, &set(&["c.ts", "a.ts", "other.ts"]), &StringSet::new()).unwrap();
    assert_eq!(texts(plan), vec!["echo a.ts c.ts"]);
}

#[test]
fn no_existing_file_means_no_files_affected() {
    let t = task(Some(&["["]), None, &["echo {files}"]);
    let plan = plan_task(&t, &set(&["a.ts"]), &StringSet::new(), &StringSet::new()).unwrap();
    assert!(matches!(plan, TaskPlan::NoFilesAffected));
    let plan = plan_task(&t, &StringSet::new(), &set(&["a.ts"]), &StringSet::new()).unwrap();
    assert!(matches!(plan, TaskPlan::NoFilesAffected));
}

#[test]
fn no_matching_file_means_no_files_matched() {
    let t = task(Some(&["*.rs"]), None, &["echo {files}"]);
    let files = set(&["a.ts", "b.md"]);
    let plan = plan_task(&t, &files, &files, &StringSet::new()).unwrap();
    assert!(matches!(plan, TaskPlan::NoFilesMatched));
}

#[test]
fn a_task_with_an_empty_pattern_list_matches_no_file() {
    let t = task(Some(&[]), None, &["echo {files}"]);
    let files = set(&["a.ts"]);
    let plan = plan_task(&t, &files, &files, &StringSet::new()).unwrap();
    assert!(matches!(plan, TaskPlan::NoFilesMatched));
}

#[test]
fn a_task_without_patterns_takes_every_file() {
    let t = task(None, None, &["echo {files}"]);
    let files = set(&["a.ts", "libs/b/c.md"]);
    let plan = plan_task(&t, &files, &files, &StringSet::new()).unwrap();
    assert_eq!(texts(plan), vec!["echo a.ts libs/b/c.md"]);
}

#[test]
fn the_separator_stands_between_files_and_between_projects() {
    let t = task(None, Some(","), &["lint --files={files} --projects={projects}"]);
    let files = set(&["a.ts", "b.ts"]);
    let plan = plan_task(&t, &files, &files, &set(&["p", "q"])).unwrap();
    assert_eq!(texts(plan), vec!["lint --files=a.ts,b.ts --projects=p,q"]);
}

#[test]
fn every_command_template_is_filled_in_its_order() {
    let t = task(None, None, &["one {files}", "two {projects}", "three", "{files}{files}"]);
    let files = set(&["a.ts"]);
    let plan = plan_task(&t, &files, &files, &set(&["p"])).unwrap();
    assert_eq!(texts(plan), vec!["one a.ts", "two p", "three", "a.tsa.ts"]);
}

#[test]
fn the_plan_keeps_the_template_beside_the_text() {
    let t = task(None, None, &["echo {files}"]);
    let files = set(&["a.ts"]);
    match plan_task(&t, &files, &files, &StringSet::new()).unwrap() {
        TaskPlan::Commands(commands) => {
            assert_eq!(commands[0].template, "echo {files}");
            assert_eq!(commands[0].text, "echo a.ts");
        }
        other => panic!("unexpected: {:?}", other),
    }
}

#[test]
fn projects_are_filled_in_after_files() {
    // A file name that holds the second placeholder is filled in turn.
    let t = task(None, None, &["echo {files}"]);
    let files = set(&["{projects}.ts"]);
    let plan = plan_task(&t, &files, &files, &set(&["p"])).unwrap();
    assert_eq!(texts(plan), vec!["echo p.ts"]);
}

#[test]
fn a_task_without_commands_plans_none() {
    let t = task(None, None, &[]);
    let files = set(&["a.ts"]);
    let plan = plan_task(&t, &files, &files, &StringSet::new()).unwrap();
    assert!(texts(plan).is_empty());
}

#[test]
fn a_file_pattern_that_is_no_glob_is_an_error() {
    let t = task(Some(&["*.ts", "["]), None, &["echo {files}"]);
    let files = set(&["a.ts"]);
    assert_eq!(
        plan_task(&t, &files, &files, &StringSet::new()).err(),
        Some(PatternError::Invalid { index: 1 })
    );
}

fn named(name: &str, patterns: Option<&[&str]>) -> Task {
    let mut t = task(patterns, None, &["echo {files}"]);
    t.name = name.to_string();
    t
}

fn loaded_workspace(tasks: Vec<Task>, files: &[&str]) -> Workspace {
    let mut w = Workspace::with_config("/repo", Config { base: None, tasks: Some(tasks) });
    w.load(Ok(set(files)), &Vec::new()).unwrap();
    w
}

#[test]
fn run_tasks_plans_each_selected_task_in_configured_order() {
    let w = loaded_workspace(
        vec![
            named("lint-ts", Some(&["*.ts"])),
            named("test", None),
            named("lint-md", Some(&["*.md"])),
        ],
        &["a.ts", "b.md"],
    );
    let runs = run_tasks(&w, "lint-*", &set(&["a.ts", "b.md"])).unwrap();
    assert_eq!(runs.len(), 2);
    assert_eq!(runs[0].task.name, "lint-ts");
    assert_eq!(runs[1].task.name, "lint-md");
    let mut plans: Vec<Vec<String>> = Vec::new();
    for run in runs {
        plans.push(texts(run.plan.unwrap()));
    }
    assert_eq!(plans, vec![vec!["echo a.ts"], vec!["echo b.md"]]);
}

#[test]
fn run_tasks_may_select_no_task() {
    let w = loaded_workspace(vec![named("lint", None)], &["a.ts"]);
    assert!(run_tasks(&w, "build", &set(&["a.ts"])).unwrap().is_empty());
}

#[test]
fn run_tasks_refuses_a_task_pattern_that_is_no_glob() {
    let w = loaded_workspace(vec![named("lint", None)], &["a.ts"]);
    assert!(matches!(
        run_tasks(&w, "[", &set(&["a.ts"])),
        Err(TaskRunError::TaskPattern(PatternError::Invalid { index: 0 }))
    ));
}

#[test]
fn run_tasks_without_configuration_is_an_error() {
    let w = Workspace::new("/repo");
    assert!(matches!(
        run_tasks(&w, "lint", &StringSet::new()),
        Err(TaskRunError::NoConfiguration)
    ));
}

#[test]
fn run_tasks_keeps_the_error_of_a_task_beside_the_plans_of_the_others() {
    let w = loaded_workspace(
        vec![named("one", Some(&["*.ts"])), named("two", Some(&["["]))],
        &["a.ts"],
    );
    let runs = run_tasks(&w, "*", &set(&["a.ts"])).unwrap();
    assert_eq!(runs.len(), 2);
    assert!(runs[0].plan.is_ok());
    assert_eq!(runs[1].plan.as_ref().err(), Some(&PatternError::Invalid { index: 0 }));
}

#[test]
fn run_tasks_before_a_load_finds_no_file() {
    let w = Workspace::with_config(
        "/repo",
        Config { base: None, tasks: Some(vec![named("lint", None)]) },
    );
    let runs = run_tasks(&w, "lint", &set(&["a.ts"])).unwrap();
    assert_eq!(runs.len(), 1);
    assert!(matches!(runs[0].plan, Ok(TaskPlan::NoFilesAffected)));
}

fn result(command: &str, status: CommandStatus) -> CommandResult {
    CommandResult { command: command.to_string(), status }
}

#[test]
fn a_run_whose_commands_all_succeed_succeeds() {
    let results = vec![
        result("one", CommandStatus::Succeeded),
        result("two", CommandStatus::Succeeded),
    ];
    assert!(task_outcome(&results).is_ok());
    assert!(task_outcome(&Vec::new()).is_ok());
}

#[test]
fn command_failure_names_the_failing_command() {
    let results = vec![
        result("exit 1", CommandStatus::Failed),
        result("exit 0", CommandStatus::Succeeded),
    ];
    match task_outcome(&results) {
        Err(CommandError::CommandFailure { command }) => assert_eq!(command, "exit 1"),
        other => panic!("unexpected: {:?}", other),
    }
    let results = vec![
        result("exit 0", CommandStatus::Succeeded),
        result("exit 1", CommandStatus::Failed),
    ];
    match task_outcome(&results) {
        Err(CommandError::CommandFailure { command }) => assert_eq!(command, "exit 1"),
        other => panic!("unexpected: {:?}", other),
    }
}

#[test]
fn of_several_failures_the_first_in_order_is_reported() {
    let results = vec![
        result("a", CommandStatus::Succeeded),
        result("b", CommandStatus::NotAwaited),
        result("c", CommandStatus::Failed),
    ];
    match task_outcome(&results) {
        Err(CommandError::WaitFailure { command }) => assert_eq!(command, "b"),
        other => panic!("unexpected: {:?}", other),
    }
}

#[test]
fn each_way_of_failing_has_its_error() {
    match task_outcome(&vec![result("a", CommandStatus::NotStarted)]) {
        Err(CommandError::StartFailure { command }) => assert_eq!(command, "a"),
        other => panic!("unexpected: {:?}", other),
    }
    match task_outcome(&vec![result("b", CommandStatus::Panicked)]) {
        Err(CommandError::Panicked { command }) => assert_eq!(command, "b"),
        other => panic!("unexpected: {:?}", other),
    }
}
