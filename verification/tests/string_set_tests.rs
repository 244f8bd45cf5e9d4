use affected::string_set::StringSet;

#[test]
fn a_new_set_is_empty() {
    let s = StringSet::new();
    assert!(s.is_empty());
    assert_eq!(s.len(), 0);
    assert!(!s.contains("a"));
    assert!(s.items().is_empty());
}

#[test]
fn insert_says_whether_the_value_was_new() {
    let mut s = StringSet::new();
    assert!(s.insert("a".to_string()));
    assert!(s.insert("b".to_string()));
    assert!(!s.insert("a".to_string()));
    assert_eq!(s.len(), 2);
    assert!(s.contains("a"));
    assert!(s.contains("b"));
    assert!(!s.contains("c"));
    assert!(!s.is_empty());
}

#[test]
fn items_come_in_the_order_of_first_insertion() {
    let mut s = StringSet::new();
    s.insert("b".to_string());
    s.insert("a".to_string());
    s.insert("b".to_string());
    s.insert("c".to_string());
    assert_eq!(s.items(), &vec!["b".to_string(), "a".to_string(), "c".to_string()]);
}

#[test]
fn from_vec_keeps_each_value_once() {
    let s = StringSet::from_vec(vec!["x".to_string(), "y".to_string(), "x".to_string()]);
    assert_eq!(s.len(), 2);
    assert!(s.contains("x"));
    assert!(s.contains("y"));
}

#[test]
fn duplicate_has_the_same_members_in_the_same_order() {
    let s = StringSet::from_vec(vec!["q".to_string(), "p".to_string()]);
    let d = s.duplicate();
    assert_eq!(d.items(), s.items());
    assert!(d.contains("p"));
    assert_eq!(d.len(), 2);
}
