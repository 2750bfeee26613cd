use neutron::bindings::NameMap;

fn name(text: &str) -> String {
    text.to_string()
}

#[test]
fn a_new_map_binds_nothing() {
    let map: NameMap<i64> = NameMap::new();
    assert!(!map.contains(&name("x")));
    assert_eq!(map.get(&name("x")), None);
    assert_eq!(map.get(&name("")), None);
}

#[test]
fn insert_binds_and_replaces() {
    let mut map: NameMap<i64> = NameMap::new();
    map.insert(name("x"), 1);
    map.insert(name("y"), 2);
    assert_eq!(map.get(&name("x")), Some(&1));
    assert_eq!(map.get(&name("y")), Some(&2));
    assert_eq!(map.get(&name("z")), None);
    map.insert(name("x"), 3);
    assert_eq!(map.get(&name("x")), Some(&3));
    assert_eq!(map.get(&name("y")), Some(&2));
    assert!(map.contains(&name("x")));
    assert!(!map.contains(&name("X")));
    map.insert(name(""), 0);
    assert_eq!(map.get(&name("")), Some(&0));
}

#[test]
fn remove_unbinds_and_hands_the_value_back() {
    let mut map: NameMap<String> = NameMap::new();
    map.insert(name("a"), name("first"));
    map.insert(name("b"), name("second"));
    map.insert(name("c"), name("third"));
    assert_eq!(map.remove(&name("b")), Some(name("second")));
    assert_eq!(map.remove(&name("b")), None);
    assert_eq!(map.get(&name("a")), Some(&name("first")));
    assert_eq!(map.get(&name("b")), None);
    assert_eq!(map.get(&name("c")), Some(&name("third")));
    assert_eq!(map.remove(&name("missing")), None);
    assert_eq!(map.remove(&name("a")), Some(name("first")));
    assert_eq!(map.remove(&name("c")), Some(name("third")));
    assert!(!map.contains(&name("a")));
    assert!(!map.contains(&name("c")));
    map.insert(name("b"), name("again"));
    assert_eq!(map.get(&name("b")), Some(&name("again")));
}

#[test]
fn a_copy_binds_the_same_and_is_its_own() {
    let mut map: NameMap<i64> = NameMap::new();
    map.insert(name("x"), 1);
    map.insert(name("y"), 2);
    let mut copy = map.clone();
    assert_eq!(copy.get(&name("x")), Some(&1));
    assert_eq!(copy.get(&name("y")), Some(&2));
    copy.insert(name("x"), 10);
    copy.remove(&name("y"));
    copy.insert(name("z"), 30);
    assert_eq!(map.get(&name("x")), Some(&1));
    assert_eq!(map.get(&name("y")), Some(&2));
    assert_eq!(map.get(&name("z")), None);
    assert_eq!(copy.get(&name("x")), Some(&10));
    assert_eq!(copy.get(&name("y")), None);
}
