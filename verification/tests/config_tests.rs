use affected::config::{Config, Task};
use affected::glob::PatternError;

fn task(name: &str) -> Task {
    Task {
        name: name.to_string(),
        description: None,
        patterns: None,
        separator: None,
        commands: Vec::new(),
    }
}

fn config(names: &[&str]) -> Config {
    Config { base: None, tasks: Some(names.iter().map(|n| task(n)).collect()) }
}

#[test]
fn get_task_finds_the_first_task_of_that_name() {
    let mut c = config(&["lint", "test", "lint"]);
    c.tasks.as_mut().unwrap()[0].description = Some("first".to_string());
    c.tasks.as_mut().unwrap()[2].description = Some("second".to_string());
    let found = c.get_task("lint").unwrap();
    assert_eq!(found.description.as_deref(), Some("first"));
    assert_eq!(c.get_task("test").unwrap().name, "test");
}

#[test]
fn get_task_finds_nothing_under_an_unknown_name() {
    assert!(config(&["lint"]).get_task("build").is_none());
    assert!(config(&["lint"]).get_task("lin").is_none());
    assert!(config(&[]).get_task("lint").is_none());
    let none = Config { base: None, tasks: None };
    assert!(none.get_task("lint").is_none());
}

#[test]
fn get_tasks_selects_by_glob_in_configured_order() {
    let c = config(&["lint-js", "test", "lint-css"]);
    let names: Vec<&str> = c.get_tasks("lint-*").iter().map(|t| t.name.as_str()).collect();
    assert_eq!(names, vec!["lint-js", "lint-css"]);
}

#[test]
fn get_tasks_with_a_plain_name_selects_that_task() {
    let c = config(&["lint", "lint2", "test"]);
    let names: Vec<&str> = c.get_tasks("lint").iter().map(|t| t.name.as_str()).collect();
    assert_eq!(names, vec!["lint"]);
}

#[test]
fn get_tasks_may_select_nothing() {
    let c = config(&["lint", "test"]);
    assert!(c.get_tasks("build*").is_empty());
    let none = Config { base: None, tasks: None };
    assert!(none.get_tasks("*").is_empty());
}

#[test]
fn select_tasks_selects_as_get_tasks_does() {
    let c = config(&["lint-js", "test", "lint-css"]);
    let selected = c.select_tasks("*t*").unwrap();
    let names: Vec<&str> = selected.iter().map(|t| t.name.as_str()).collect();
    assert_eq!(names, vec!["lint-js", "test", "lint-css"]);
    let selected = c.select_tasks("test").unwrap();
    assert_eq!(selected.len(), 1);
    assert_eq!(selected[0].name, "test");
}

#[test]
fn select_tasks_refuses_a_pattern_that_is_no_glob() {
    let c = config(&["lint"]);
    assert_eq!(c.select_tasks("[").err(), Some(PatternError::Invalid { index: 0 }));
}

#[test]
fn the_default_configuration_has_two_example_tasks() {
    let c = Config::default();
    assert_eq!(c.base.as_deref(), Some("main"));
    let tasks = c.tasks.as_ref().unwrap();
    assert_eq!(tasks.len(), 2);
    assert_eq!(tasks[0].name, "lint");
    assert_eq!(
        tasks[0].description.as_deref(),
        Some("Runs eslint for all affected files (example)")
    );
    assert_eq!(tasks[0].patterns, Some(vec!["*.{ts,tsx,js,jsx}".to_string()]));
    assert_eq!(tasks[0].separator, None);
    assert_eq!(tasks[0].commands, vec!["npx eslint {files}".to_string()]);
    assert_eq!(tasks[1].name, "prettier");
    assert_eq!(
        tasks[1].description.as_deref(),
        Some("Runs prettier for all affected files (example)")
    );
    assert_eq!(tasks[1].patterns, Some(vec!["*.{ts,tsx,js,jsx}".to_string()]));
    assert_eq!(tasks[1].separator, None);
    assert_eq!(tasks[1].commands, vec!["npx prettier --check {files}".to_string()]);
}

#[test]
fn a_label_is_the_name_and_the_description_in_brackets() {
    let mut t = task("lint");
    assert_eq!(t.label(), "lint");
    t.description = Some("checks style".to_string());
    assert_eq!(t.label(), "lint (checks style)");
}
