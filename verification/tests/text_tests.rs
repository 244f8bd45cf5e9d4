use affected::text::{chars_start_with, join, replace, same_text, to_chars};

fn starts_with(s: &str, prefix: &str) -> bool {
    chars_start_with(&to_chars(s), &to_chars(prefix))
}

#[test]
fn to_chars_lists_every_character() {
    assert_eq!(to_chars("a/é"), vec!['a', '/', 'é']);
    assert_eq!(to_chars(""), Vec::<char>::new());
}

#[test]
fn starts_with_is_a_test_on_the_text() {
    assert!(starts_with("libs/a/index.ts", "libs/a"));
    assert!(starts_with("libs/a", "libs/a"));
    assert!(starts_with("libs/a", ""));
    assert!(!starts_with("libs/a", "libs/a/index.ts"));
    assert!(!starts_with("libs/b/index.ts", "libs/a"));
}

#[test]
fn starts_with_knows_no_path_separator() {
    // A sibling directory whose name begins alike passes the test too.
    assert!(starts_with("libs/foo-bar/main.ts", "libs/foo"));
}

#[test]
fn chars_start_with_compares_position_by_position() {
    assert!(chars_start_with(&vec!['a', 'b', 'c'], &vec!['a', 'b']));
    assert!(!chars_start_with(&vec!['a', 'b', 'c'], &vec!['a', 'c']));
    assert!(!chars_start_with(&vec!['a'], &vec!['a', 'b']));
}

#[test]
fn same_text_compares_whole_strings() {
    assert!(same_text("lint", "lint"));
    assert!(same_text("", ""));
    assert!(!same_text("lint", "lin"));
    assert!(!same_text("lin", "lint"));
    assert!(!same_text("lint", "list"));
}

#[test]
fn replace_fills_every_occurrence() {
    assert_eq!(replace("echo {files}", "{files}", "a.ts"), "echo a.ts");
    assert_eq!(replace("{x} and {x}", "{x}", "1"), "1 and 1");
    assert_eq!(replace("{x}{x}", "{x}", "ab"), "abab");
    assert_eq!(replace("no placeholder", "{x}", "1"), "no placeholder");
    assert_eq!(replace("", "{x}", "1"), "");
}

#[test]
fn replace_scans_from_the_left_and_skips_what_it_wrote() {
    assert_eq!(replace("aaa", "aa", "b"), "ba");
    assert_eq!(replace("aaaa", "aa", "a"), "aa");
    assert_eq!(replace("ab", "a", "aa"), "aab");
}

#[test]
fn replace_with_an_empty_pattern_changes_nothing() {
    assert_eq!(replace("abc", "", "x"), "abc");
}

#[test]
fn replace_agrees_with_the_standard_library_on_a_placeholder() {
    let template = "run {files} then {files}; é {file} {files";
    assert_eq!(
        replace(template, "{files}", "a b"),
        template.replace("{files}", "a b")
    );
}

#[test]
fn join_puts_the_separator_between_neighbours() {
    let items = vec!["a.ts".to_string(), "b.ts".to_string(), "c.ts".to_string()];
    assert_eq!(join(&items, " "), "a.ts b.ts c.ts");
    assert_eq!(join(&items, ", "), "a.ts, b.ts, c.ts");
    assert_eq!(join(&items, ""), "a.tsb.tsc.ts");
}

#[test]
fn join_of_one_or_no_item_has_no_separator() {
    assert_eq!(join(&vec!["a".to_string()], ","), "a");
    assert_eq!(join(&Vec::new(), ","), "");
}

#[test]
fn replace_agrees_with_the_standard_library_on_patterns_that_overlap_themselves() {
    let cases = [
        ("aaaaa", "aa", "b"),
        ("abababa", "aba", "x"),
        ("xxabxx", "x", ""),
        ("é{files}é{files}", "{files}", "ü"),
        ("{files", "{files}", "a"),
        ("{{files}}", "{files}", "{files}"),
        ("abc", "abc", ""),
        ("abc", "abcd", "x"),
    ];
    for (text, pattern, value) in cases {
        assert_eq!(replace(text, pattern, value), text.replace(pattern, value));
    }
}
