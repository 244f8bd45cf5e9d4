use affected::glob::{compile_pattern, compile_patterns, PatternError};

#[test]
fn a_single_pattern_matches_as_a_glob() {
    let set = compile_pattern("*.ts").unwrap();
    assert!(set.matches("a.ts"));
    assert!(set.matches("libs/a/index.ts"));
    assert!(!set.matches("b.md"));
}

#[test]
fn a_pattern_without_wildcards_matches_itself_only() {
    let set = compile_pattern("lint").unwrap();
    assert!(set.matches("lint"));
    assert!(!set.matches("lint2"));
    assert!(!set.matches("lin"));
}

#[test]
fn a_set_matches_what_any_of_its_patterns_matches() {
    let set = compile_patterns(&vec!["*.ts".to_string(), "*.md".to_string()]).unwrap();
    assert!(set.matches("a.ts"));
    assert!(set.matches("b.md"));
    assert!(!set.matches("c.rs"));
}

#[test]
fn a_set_of_no_pattern_matches_nothing() {
    let set = compile_patterns(&Vec::new()).unwrap();
    assert!(!set.matches("a.ts"));
    assert!(!set.matches(""));
}

#[test]
fn the_pattern_for_every_file_matches_nested_and_plain_paths() {
    let set = compile_pattern("**/*").unwrap();
    assert!(set.matches("a.ts"));
    assert!(set.matches("libs/a/index.ts"));
}

#[test]
fn braces_give_alternatives() {
    let set = compile_pattern("*.{ts,tsx,js,jsx}").unwrap();
    assert!(set.matches("a.tsx"));
    assert!(set.matches("src/b.js"));
    assert!(!set.matches("c.json"));
}

#[test]
fn a_pattern_that_is_no_glob_is_an_error() {
    assert_eq!(compile_pattern("[").err(), Some(PatternError::Invalid { index: 0 }));
    assert_eq!(compile_pattern("{a,b").err(), Some(PatternError::Invalid { index: 0 }));
}

#[test]
fn the_error_names_the_first_pattern_that_is_no_glob() {
    let patterns = vec!["*.ts".to_string(), "[".to_string(), "{".to_string()];
    assert_eq!(
        compile_patterns(&patterns).err(),
        Some(PatternError::Invalid { index: 1 })
    );
}

#[test]
fn patterns_too_large_to_compile_are_an_error() {
    let huge = "?".repeat(600_000);
    assert_eq!(compile_pattern(&huge).err(), Some(PatternError::Unbuildable));
    assert_eq!(
        compile_patterns(&vec!["*.ts".to_string(), huge]).err(),
        Some(PatternError::Unbuildable)
    );
}
