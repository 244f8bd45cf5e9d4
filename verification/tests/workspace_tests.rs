use affected::config::{Config, Task};
use affected::dependencies::{GraphError, LoadedProject};
use affected::nx::NxProject;
use affected::string_set::StringSet;
use affected::workspace::{
    find_affected_files, inspect_workspace, loaded_projects, reads_projects, resolve_base_branch,
    DescriptorError, LoadError, ProjectCandidate, VcsError, WalkedEntry, Workspace,
};

fn nx(name: Option<&str>, dependencies: Option<&[&str]>) -> NxProject {
    NxProject {
        name: name.map(|n| n.to_string()),
        root: None,
        source_root: None,
        project_type: None,
        tags: None,
        implicit_dependencies: dependencies
            .map(|list| list.iter().map(|d| d.to_string()).collect()),
    }
}

fn loaded(path: &str, name: &str, dependencies: Option<&[&str]>) -> LoadedProject {
    LoadedProject { path: path.to_string(), project: nx(Some(name), dependencies) }
}

fn set(items: &[&str]) -> StringSet {
    StringSet::from_vec(items.iter().map(|s| s.to_string()).collect())
}

fn sorted(s: &StringSet) -> Vec<String> {
    let mut v = s.items().clone();
    v.sort();
    v
}

fn empty_config() -> Config {
    Config { base: None, tasks: None }
}

#[test]
fn the_configured_base_is_taken_where_it_exists() {
    assert_eq!(resolve_base_branch(Some("develop"), true, true, true).unwrap(), "develop");
    assert_eq!(resolve_base_branch(Some("develop"), true, false, false).unwrap(), "develop");
}

#[test]
fn a_configured_base_that_does_not_exist_is_an_error() {
    match resolve_base_branch(Some("develop"), false, true, true) {
        Err(VcsError::BaseBranchNotFound { name }) => assert_eq!(name, "develop"),
        other => panic!("unexpected: {:?}", other),
    }
}

#[test]
fn without_a_configured_base_main_comes_before_master() {
    assert_eq!(resolve_base_branch(None, false, true, true).unwrap(), "main");
    assert_eq!(resolve_base_branch(None, false, true, false).unwrap(), "main");
    assert_eq!(resolve_base_branch(None, false, false, true).unwrap(), "master");
}

#[test]
fn unresolved_base_branch_is_an_error() {
    assert!(matches!(
        resolve_base_branch(None, false, false, false),
        Err(VcsError::NoBaseBranch)
    ));
}

#[test]
fn unresolved_base_branch_leaves_no_partial_data() {
    let mut w = Workspace::with_config("/repo", empty_config());
    let changes = resolve_base_branch(None, false, false, false).map(|_| StringSet::new());
    let projects = vec![loaded("libs/a", "a", None)];
    let r = w.load(changes, &projects);
    assert!(matches!(r, Err(LoadError::Vcs(VcsError::NoBaseBranch))));
    assert!(w.affected_files().is_empty());
    assert!(w.affected_projects().is_empty());
    assert!(w.graph().is_none());
}

#[test]
fn changed_files_are_the_new_sides_of_the_deltas() {
    let deltas = vec![
        Some("libs/a/index.ts".to_string()),
        None,
        Some("README.md".to_string()),
        Some("libs/a/index.ts".to_string()),
    ];
    let files = find_affected_files(&deltas);
    assert_eq!(files.len(), 2);
    assert!(files.contains("libs/a/index.ts"));
    assert!(files.contains("README.md"));
}

#[test]
fn deletions_alone_give_no_changed_file() {
    assert!(find_affected_files(&vec![None, None]).is_empty());
    assert!(find_affected_files(&Vec::new()).is_empty());
}

fn entry(path: &str, is_project: bool) -> WalkedEntry {
    WalkedEntry { relative_path: path.to_string(), is_project }
}

#[test]
fn project_directories_are_the_entries_that_pass_the_test() {
    let entries = vec![
        entry("", true),
        entry("libs", false),
        entry("libs/a", true),
        entry("libs/a/src", false),
        entry("libs/b", true),
        entry("libs/a", true),
    ];
    let dirs = inspect_workspace(&entries);
    assert_eq!(sorted(&dirs), vec!["libs/a", "libs/b"]);
}

#[test]
fn the_root_of_the_walk_is_no_project_directory() {
    assert!(inspect_workspace(&vec![entry("", true)]).is_empty());
}

#[test]
fn unreadable_descriptors_cost_their_own_project_only() {
    let candidates = vec![
        ProjectCandidate { path: "libs/a".to_string(), descriptor: Ok(nx(Some("a"), None)) },
        ProjectCandidate { path: "libs/b".to_string(), descriptor: Err(DescriptorError::Parse) },
        ProjectCandidate { path: "libs/c".to_string(), descriptor: Ok(nx(Some("c"), None)) },
        ProjectCandidate { path: "libs/d".to_string(), descriptor: Err(DescriptorError::Io) },
    ];
    let (loaded, skipped) = loaded_projects(candidates);
    let paths: Vec<&str> = loaded.iter().map(|p| p.path.as_str()).collect();
    assert_eq!(paths, vec!["libs/a", "libs/c"]);
    assert_eq!(loaded[1].project.name.as_deref(), Some("c"));
    assert_eq!(skipped.len(), 2);
    assert_eq!(skipped[0].path, "libs/b");
    assert_eq!(skipped[0].error, DescriptorError::Parse);
    assert_eq!(skipped[1].path, "libs/d");
    assert_eq!(skipped[1].error, DescriptorError::Io);
}

#[test]
fn a_new_workspace_answers_with_empty_values() {
    let w = Workspace::new("/repo");
    assert_eq!(w.root(), "/repo");
    assert!(w.config().is_none());
    assert!(w.graph().is_none());
    assert!(w.affected_files().is_empty());
    assert!(w.affected_projects().is_empty());
}

#[test]
fn a_workspace_keeps_its_configuration() {
    let w = Workspace::with_config("/repo", Config::default());
    assert_eq!(w.config().unwrap().base.as_deref(), Some("main"));
    let names: Vec<&str> = w.tasks().iter().map(|t| t.name.as_str()).collect();
    assert_eq!(names, vec!["lint", "prettier"]);
}

#[test]
fn a_workspace_without_configured_tasks_has_none() {
    let w = Workspace::with_config("/repo", empty_config());
    assert!(w.tasks().is_empty());
}

#[test]
fn load_fills_files_graph_and_projects_together() {
    let mut w = Workspace::with_config("/repo", empty_config());
    let projects = vec![
        loaded("libs/a", "a", Some(&["b"])),
        loaded("libs/b", "b", None),
        loaded("libs/c", "c", None),
    ];
    let unresolved = w.load(Ok(set(&["libs/a/index.ts"])), &projects).unwrap();
    assert!(unresolved.is_empty());
    assert_eq!(sorted(&w.affected_files()), vec!["libs/a/index.ts"]);
    assert_eq!(sorted(&w.affected_projects()), vec!["a", "b"]);
    assert_eq!(w.graph().unwrap().node_count(), 3);
    assert_eq!(w.graph().unwrap().edge_count(), 1);
}

#[test]
fn load_reports_the_dependencies_that_lead_nowhere() {
    let mut w = Workspace::with_config("/repo", empty_config());
    let projects = vec![loaded("libs/a", "a", Some(&["ghost"]))];
    let unresolved = w.load(Ok(set(&["libs/a/x.ts"])), &projects).unwrap();
    assert_eq!(unresolved.len(), 1);
    assert_eq!(unresolved[0].project, 0);
    assert_eq!(unresolved[0].dependency, 0);
    assert_eq!(sorted(&w.affected_projects()), vec!["a"]);
}

#[test]
fn load_without_changes_gives_an_empty_graph() {
    let mut w = Workspace::with_config("/repo", empty_config());
    let projects = vec![loaded("libs/a", "a", Some(&["["]))];
    let unresolved = w.load(Ok(StringSet::new()), &projects).unwrap();
    assert!(unresolved.is_empty());
    assert_eq!(w.graph().unwrap().node_count(), 0);
    assert!(w.affected_files().is_empty());
    assert!(w.affected_projects().is_empty());
}

#[test]
fn load_without_projects_keeps_the_changed_files() {
    let mut w = Workspace::with_config("/repo", empty_config());
    w.load(Ok(set(&["README.md"])), &Vec::new()).unwrap();
    assert_eq!(sorted(&w.affected_files()), vec!["README.md"]);
    assert!(w.affected_projects().is_empty());
    assert_eq!(w.graph().unwrap().node_count(), 0);
}

#[test]
fn load_without_configuration_loads_nothing() {
    let mut w = Workspace::new("/repo");
    let projects = vec![loaded("libs/a", "a", None)];
    let unresolved = w.load(Ok(set(&["libs/a/x.ts"])), &projects).unwrap();
    assert!(unresolved.is_empty());
    assert!(w.graph().is_none());
    assert!(w.affected_files().is_empty());
    assert!(w.affected_projects().is_empty());
}

#[test]
fn a_failed_load_keeps_what_an_earlier_load_gave() {
    let mut w = Workspace::with_config("/repo", empty_config());
    w.load(Ok(set(&["libs/a/x.ts"])), &vec![loaded("libs/a", "a", None)]).unwrap();
    let bad = vec![loaded("libs/b", "b", Some(&["["]))];
    let r = w.load(Ok(set(&["libs/b/x.ts"])), &bad);
    assert!(matches!(
        r,
        Err(LoadError::Graph(GraphError::InvalidDependency { project: 0, dependency: 0 }))
    ));
    assert_eq!(sorted(&w.affected_files()), vec!["libs/a/x.ts"]);
    assert_eq!(sorted(&w.affected_projects()), vec!["a"]);
    let r = w.load(Err(VcsError::Diff), &Vec::new());
    assert!(matches!(r, Err(LoadError::Vcs(VcsError::Diff))));
    assert_eq!(sorted(&w.affected_projects()), vec!["a"]);
}

#[test]
fn project_directories_hold_a_descriptor() {
    assert!(Workspace::is_project_dir(true, true, false));
    assert!(Workspace::is_project_dir(true, false, true));
    assert!(!Workspace::is_project_dir(true, false, false));
    assert!(!Workspace::is_project_dir(false, true, true));
    assert!(Workspace::is_nx_project_dir(true, true));
    assert!(!Workspace::is_nx_project_dir(true, false));
    assert!(!Workspace::is_nx_project_dir(false, true));
}

#[test]
fn run_task_needs_a_configuration() {
    let w = Workspace::new("/repo");
    assert!(matches!(
        w.run_task("lint", &StringSet::new()),
        Err(affected::tasks::TaskRunError::NoConfiguration)
    ));
}

#[test]
fn run_task_plans_the_selected_tasks_on_the_loaded_files() {
    let config = Config {
        base: None,
        tasks: Some(vec![Task {
            name: "lint".to_string(),
            description: None,
            patterns: Some(vec!["*.ts".to_string()]),
            separator: None,
            commands: vec!["echo {files} in {projects}".to_string()],
        }]),
    };
    let mut w = Workspace::with_config("/repo", config);
    let projects = vec![loaded("libs/a", "a", None)];
    w.load(Ok(set(&["libs/a/x.ts", "libs/a/gone.ts", "libs/a/y.md"])), &projects).unwrap();
    let runs = w.run_task("lint", &set(&["libs/a/x.ts", "libs/a/y.md"])).unwrap();
    assert_eq!(runs.len(), 1);
    assert_eq!(runs[0].task.name, "lint");
    match runs[0].plan.as_ref().unwrap() {
        affected::tasks::TaskPlan::Commands(commands) => {
            assert_eq!(commands.len(), 1);
            assert_eq!(commands[0].template, "echo {files} in {projects}");
            assert_eq!(commands[0].text, "echo libs/a/x.ts in a");
        }
        other => panic!("unexpected: {:?}", other),
    }
}

#[test]
fn projects_are_read_only_where_something_changed() {
    assert!(reads_projects(&Ok(set(&["a.ts"]))));
    assert!(!reads_projects(&Ok(StringSet::new())));
    assert!(!reads_projects(&Err(VcsError::NoBaseBranch)));
}

#[test]
fn a_failed_load_on_a_new_workspace_leaves_it_without_graph() {
    let mut w = Workspace::with_config("/repo", empty_config());
    assert!(w.load(Err(VcsError::Head), &Vec::new()).is_err());
    assert!(w.graph().is_none());
    let bad = vec![loaded("libs/b", "b", Some(&["["]))];
    assert!(w.load(Ok(set(&["libs/b/x.ts"])), &bad).is_err());
    assert!(w.graph().is_none());
    assert!(w.affected_files().is_empty());
}
