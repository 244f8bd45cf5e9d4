use affected::nx::{NxProject, ProjectType};
use affected::node::NodeProject;
use affected::projects::Project;
use affected::{find_git_root, AncestorDir, Config, OutputFormat};

fn dir(path: &str, has_git: bool) -> AncestorDir {
    AncestorDir { path: path.to_string(), has_git }
}

#[test]
fn the_git_root_is_the_nearest_directory_with_a_git_entry() {
    let ancestors = vec![
        dir("/home/me/repo/libs/a", false),
        dir("/home/me/repo/libs", false),
        dir("/home/me/repo", true),
        dir("/home/me", true),
        dir("/home", false),
        dir("/", false),
    ];
    assert_eq!(find_git_root(&ancestors), Some("/home/me/repo".to_string()));
}

#[test]
fn the_starting_directory_may_be_the_git_root() {
    let ancestors = vec![dir("/repo", true), dir("/", false)];
    assert_eq!(find_git_root(&ancestors), Some("/repo".to_string()));
}

#[test]
fn the_topmost_directory_is_never_the_git_root() {
    assert_eq!(find_git_root(&vec![dir("/repo", false), dir("/", true)]), None);
    assert_eq!(find_git_root(&vec![dir("/", true)]), None);
}

#[test]
fn without_a_git_entry_there_is_no_git_root() {
    assert_eq!(find_git_root(&vec![dir("/a/b", false), dir("/a", false), dir("/", false)]), None);
    assert_eq!(find_git_root(&Vec::new()), None);
}

fn nx(name: Option<&str>, root: Option<&str>) -> NxProject {
    NxProject {
        name: name.map(|n| n.to_string()),
        root: root.map(|r| r.to_string()),
        source_root: Some("libs/a/src".to_string()),
        project_type: Some(ProjectType::Library),
        tags: Some(vec!["ui".to_string()]),
        implicit_dependencies: Some(vec!["b".to_string()]),
    }
}

#[test]
fn a_descriptor_without_location_takes_its_directory() {
    let p = NxProject::load("libs/a", nx(Some("a"), None));
    assert_eq!(p.root.as_deref(), Some("libs/a"));
    assert_eq!(p.name.as_deref(), Some("a"));
    assert_eq!(p.source_root.as_deref(), Some("libs/a/src"));
    assert!(matches!(p.project_type, Some(ProjectType::Library)));
    assert_eq!(p.tags, Some(vec!["ui".to_string()]));
    assert_eq!(p.implicit_dependencies, Some(vec!["b".to_string()]));
}

#[test]
fn a_descriptor_without_source_root_takes_its_directory() {
    let declared = NxProject {
        name: Some("a".to_string()),
        root: None,
        source_root: None,
        project_type: None,
        tags: None,
        implicit_dependencies: Some(vec!["b".to_string()]),
    };
    let p = NxProject::load("libs/a", declared);
    assert_eq!(p.name(), Some("a"));
    assert_eq!(p.root.as_deref(), Some("libs/a"));
    assert_eq!(p.source_root.as_deref(), Some("libs/a"));
    assert_eq!(p.implicit_dependencies, Some(vec!["b".to_string()]));
    assert!(p.project_type.is_none());
    assert_eq!(p.tags, None);
}

#[test]
fn a_descriptor_without_name_stays_without_one() {
    let declared = NxProject {
        name: None,
        root: None,
        source_root: Some("libs/a/src".to_string()),
        project_type: None,
        tags: None,
        implicit_dependencies: None,
    };
    let p = NxProject::load("libs/a", declared);
    assert_eq!(p.name(), None);
    assert_eq!(p.source_root.as_deref(), Some("libs/a/src"));
}

#[test]
fn a_descriptor_keeps_the_location_that_it_declares() {
    let p = NxProject::load("libs/a", nx(None, Some("elsewhere")));
    assert_eq!(p.root.as_deref(), Some("elsewhere"));
    assert_eq!(p.name, None);
}

#[test]
fn descriptors_of_both_kinds_tell_their_name() {
    assert_eq!(nx(Some("a"), None).name(), Some("a"));
    assert_eq!(nx(None, None).name(), None);
    assert_eq!(NodeProject { name: Some("pkg".to_string()) }.name(), Some("pkg"));
    assert_eq!(NodeProject { name: None }.name(), None);
}

#[test]
fn the_configuration_is_at_the_crate_root_too() {
    let c = Config::default();
    assert_eq!(c.base.as_deref(), Some("main"));
    assert!(matches!(OutputFormat::Text.clone(), OutputFormat::Text));
}
