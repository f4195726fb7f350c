use wmkit::tags::TagList;

fn names(tags: &[&str]) -> Vec<String> {
    tags.iter().map(|t| t.to_string()).collect()
}

#[test]
fn distinct_names_make_a_list() {
    let tags = TagList::new(names(&["1", "2", "3"])).expect("no name occurs twice");
    assert_eq!(tags.len(), 3);
    assert_eq!(tags.get(0), Some("1"));
    assert_eq!(tags.get(2), Some("3"));
    assert_eq!(tags.get(3), None);
}

#[test]
fn a_repeated_name_makes_no_list() {
    assert_eq!(TagList::new(names(&["1", "2", "1"])), None);
    assert_eq!(TagList::new(names(&["a", "a"])), None);
    assert_eq!(TagList::new(names(&["x", "y", "z", "z"])), None);
}

#[test]
fn the_empty_list_is_a_list() {
    let tags = TagList::new(Vec::new()).unwrap();
    assert_eq!(tags.len(), 0);
    assert_eq!(tags.get(0), None);
    assert_eq!(tags.position("1"), None);
}

#[test]
fn position_finds_a_tag_by_its_name() {
    let tags = TagList::new(names(&["web", "mail", "code"])).unwrap();
    assert_eq!(tags.position("web"), Some(0));
    assert_eq!(tags.position("code"), Some(2));
    assert_eq!(tags.position("Code"), None);
    assert_eq!(tags.position(""), None);
    assert_eq!(tags.position_of(&"mail".to_string()), Some(1));
}

#[test]
fn order_is_kept() {
    let tags = TagList::new(names(&["9", "1", "5"])).unwrap();
    let listed: Vec<&str> = (0..tags.len()).map(|i| tags.get(i).unwrap()).collect();
    assert_eq!(listed, vec!["9", "1", "5"]);
}

#[test]
fn a_copy_of_a_list_equals_it() {
    let tags = TagList::new(names(&["1", "2"])).unwrap();
    assert_eq!(tags.clone(), tags);
}
