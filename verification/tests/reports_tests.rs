use affected::config::Task;
use affected::reports::{numbered_lines, task_summaries};

fn task(name: &str, description: Option<&str>, patterns: Option<&[&str]>) -> Task {
    Task {
        name: name.to_string(),
        description: description.map(|d| d.to_string()),
        patterns: patterns.map(|p| p.iter().map(|s| s.to_string()).collect()),
        separator: None,
        commands: vec!["echo {files}".to_string()],
    }
}

#[test]
fn task_rows_are_numbered_from_one() {
    let lint = task("lint", Some("checks style"), Some(&["*.ts", "*.tsx"]));
    let test = task("test", None, None);
    let bare = task("bare", Some(""), Some(&[]));
    let rows = task_summaries(&vec![&lint, &test, &bare]);
    assert_eq!(rows.len(), 3);
    assert_eq!(rows[0].number, 1);
    assert_eq!(rows[0].name, "lint");
    assert_eq!(rows[0].description, "checks style");
    assert_eq!(rows[0].patterns, "*.ts, *.tsx");
    assert_eq!(rows[1].number, 2);
    assert_eq!(rows[1].name, "test");
    assert_eq!(rows[1].description, "");
    assert_eq!(rows[1].patterns, "");
    assert_eq!(rows[2].number, 3);
    assert_eq!(rows[2].patterns, "");
}

#[test]
fn no_task_gives_no_row() {
    assert!(task_summaries(&Vec::new()).is_empty());
}

#[test]
fn lines_are_numbered_from_one_in_their_order() {
    let rows = numbered_lines(&vec!["b".to_string(), "a".to_string()]);
    assert_eq!(rows.len(), 2);
    assert_eq!(rows[0].number, 1);
    assert_eq!(rows[0].line, "b");
    assert_eq!(rows[1].number, 2);
    assert_eq!(rows[1].line, "a");
    assert!(numbered_lines(&Vec::new()).is_empty());
}
