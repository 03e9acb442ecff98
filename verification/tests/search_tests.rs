use ghostwriter::editor::rope::Rope;
use ghostwriter::editor::search::Search;

#[test]
fn test_incremental_search() {
    let rope = Rope::from_str("abc abcd abcde");
    let mut search = Search::new();
    search.update(&rope, "a", false, true).unwrap();
    assert_eq!(search.matches().len(), 3);
    search.update(&rope, "ab", false, true).unwrap();
    assert_eq!(search.matches().len(), 3);
    search.update(&rope, "abc", false, true).unwrap();
    assert_eq!(search.matches().len(), 3);
}

#[test]
fn test_regex_pattern_support() {
    let rope = Rope::from_str("foo1 foo2 foo3");
    let mut search = Search::new();
    search.update(&rope, r"foo\d", true, true).unwrap();
    assert_eq!(search.matches().len(), 3);
}

#[test]
fn test_search_navigation() {
    let rope = Rope::from_str("one two one two");
    let mut search = Search::new();
    search.update(&rope, "two", false, true).unwrap();
    let first = search.next().unwrap();
    assert_eq!(rope.slice(first.clone()), "two");
    let second = search.next().unwrap();
    assert_eq!(rope.slice(second.clone()), "two");
    let prev = search.prev().unwrap();
    assert_eq!(prev, second);
}

#[test]
fn test_case_sensitivity_toggle() {
    let rope = Rope::from_str("Foo foo FOO");
    let mut search = Search::new();
    search.update(&rope, "foo", false, false).unwrap();
    assert_eq!(search.matches().len(), 3);
    search.update(&rope, "foo", false, true).unwrap();
    assert_eq!(search.matches().len(), 1);
}

#[test]
fn invalid_regex_reports_an_error() {
    let rope = Rope::from_str("text");
    let mut search = Search::new();
    assert!(search.update(&rope, "(", true, true).is_err());
}
