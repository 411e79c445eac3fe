use getting_farted_on::listed::Listed;

fn names(list: &[&str]) -> Vec<String> {
    list.iter().map(|s| s.to_string()).collect()
}

#[test]
fn lookup_by_name() {
    let l = Listed::from_list(names(&["normal", "fire", "rainbow"]), vec![10, 20, 30]);
    assert_eq!(l.index("fire"), Some(1));
    assert_eq!(l.get("rainbow"), Some(&30));
    assert_eq!(l.get("normal"), Some(&10));
    assert_eq!(l.index("bubble"), None);
    assert_eq!(l.get("bubble"), None);
}

#[test]
fn repeated_name_finds_last() {
    let l = Listed::from_list(names(&["a", "b", "a"]), vec!['x', 'y', 'z']);
    assert_eq!(l.index("a"), Some(2));
    assert_eq!(l.get("a"), Some(&'z'));
}

#[test]
fn keys_are_distinct_names() {
    let l = Listed::from_list(names(&["a", "b", "a", "c"]), vec![1, 2, 3, 4]);
    let mut keys = l.keys();
    keys.sort();
    assert_eq!(keys, vec!["a", "b", "c"]);
}

#[test]
fn empty_list() {
    let l: Listed<u8> = Listed::from_list(vec![], vec![]);
    assert_eq!(l.index(""), None);
    assert!(l.keys().is_empty());
}
