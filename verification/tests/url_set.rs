use fuze::UrlSet;

fn s(text: &str) -> String {
    text.to_string()
}

fn set_of(items: &[&str]) -> UrlSet {
    let mut set = UrlSet::new();
    for item in items {
        set.insert(s(item));
    }
    set
}

#[test]
fn new_set_is_empty() {
    let set = UrlSet::new();
    assert!(set.is_empty());
    assert_eq!(set.len(), 0);
    assert!(set.urls().is_empty());
    assert!(!set.contains(&s("a")));
}

#[test]
fn insert_keeps_one_of_each() {
    let mut set = UrlSet::new();
    assert!(set.insert(s("a")));
    assert!(set.insert(s("b")));
    assert!(!set.insert(s("a")));
    assert_eq!(set.len(), 2);
    assert!(!set.is_empty());
    assert!(set.contains(&s("a")));
    assert!(set.contains(&s("b")));
    assert!(!set.contains(&s("c")));
    assert_eq!(set.urls(), &vec![s("a"), s("b")]);
}

#[test]
fn remove_takes_out_one_member() {
    let mut set = set_of(&["a", "b", "c"]);
    assert!(set.remove(&s("b")));
    assert!(!set.remove(&s("b")));
    assert!(!set.remove(&s("z")));
    assert_eq!(set.urls(), &vec![s("a"), s("c")]);
    assert!(set.remove(&s("a")));
    assert!(set.remove(&s("c")));
    assert!(set.is_empty());
}

#[test]
fn difference_subtracts() {
    let left = set_of(&["a", "b", "c", "d"]);
    let right = set_of(&["b", "d", "e"]);
    assert_eq!(left.difference(&right).urls(), &vec![s("a"), s("c")]);
    assert_eq!(right.difference(&left).urls(), &vec![s("e")]);
    assert!(left.difference(&left).is_empty());
    assert_eq!(left.difference(&UrlSet::new()).len(), 4);
    assert!(UrlSet::new().difference(&left).is_empty());
}

#[test]
fn extend_unites() {
    let mut set = set_of(&["a", "b"]);
    set.extend(&set_of(&["b", "c", "a", "d"]));
    assert_eq!(set.urls(), &vec![s("a"), s("b"), s("c"), s("d")]);
    set.extend(&UrlSet::new());
    assert_eq!(set.len(), 4);
}

#[test]
fn members_differ_by_a_single_character() {
    let set = set_of(&["https://a.test/b", "https://a.test/b/", "https://a.test/B"]);
    assert_eq!(set.len(), 3);
    assert!(!set.contains(&s("https://a.test/")));
}
