use ordered_map::OrderedMap;

#[test]
fn it_works() {
    let map: OrderedMap<String, i32> = OrderedMap::new();
    assert_eq!(map.iter().next(), None);
}

#[test]
fn it_works_deletion_with_no_element() {
    let mut map: OrderedMap<String, i32> = OrderedMap::new();
    map.remove("somename");
    assert_eq!(map.iter().next(), None);
}

#[test]
fn it_works_for_one_element() {
    let mut map = OrderedMap::new();
    map.insert("name", 4);
    let mut iterator = map.iter();
    assert_eq!(*(iterator.next().unwrap().1), 4);
    assert_eq!(iterator.next(), None);
}

#[test]
fn it_works_for_one_element_with_int_key() {
    let mut map = OrderedMap::new();
    map.insert(1, 4);
    let mut iterator = map.iter();
    assert_eq!(*(iterator.next().unwrap().1), 4);
    assert_eq!(iterator.next(), None);
}

#[test]
fn it_works_for_two_element() {
    let mut map = OrderedMap::new();
    map.insert("name", 4);
    map.insert("kumarmo2", 5);
    let mut iterator = map.iter();
    assert_eq!(*(iterator.next().unwrap().1), 4);
    assert_eq!(*(iterator.next().unwrap().1), 5);
    assert_eq!(iterator.next(), None);
}

#[test]
fn simple_deletion() {
    let mut map = OrderedMap::new();
    map.insert("name", 4);
    map.insert("kumarmo2", 5);
    map.remove("name");
    let mut iterator = map.iter();
    assert_eq!(*(iterator.next().unwrap().1), 5);
    assert_eq!(iterator.next(), None);
}

#[test]
fn deletion_at_end() {
    let mut map = OrderedMap::new();
    map.insert("name", 4);
    map.insert("name2", 10);
    map.insert("kumarmo2", 5);
    map.remove("kumarmo2");
    let mut iterator = map.iter();
    assert_eq!(*(iterator.next().unwrap().1), 4);
    assert_eq!(*(iterator.next().unwrap().1), 10);
    assert_eq!(iterator.next(), None);
}

#[test]
fn deletion_at_middle() {
    let mut map = OrderedMap::new();
    map.insert("name", 4);
    map.insert("name2", 10);
    map.insert("kumarmo2", 5);
    map.remove("name2");
    let mut iterator = map.iter();
    assert_eq!(*(iterator.next().unwrap().1), 4);
    assert_eq!(*(iterator.next().unwrap().1), 5);
    assert_eq!(iterator.next(), None);
}

#[test]
fn it_works_for_updating_key() {
    let mut map = OrderedMap::new();
    map.insert("name", 4);
    map.insert("name2", 3);
    map.insert("kumarmo2", 5);
    map.insert("name2", 10);
    let mut iterator = map.iter();
    assert_eq!(*(iterator.next().unwrap().1), 4);
    assert_eq!(*(iterator.next().unwrap().1), 10);
    assert_eq!(*(iterator.next().unwrap().1), 5);
    assert_eq!(iterator.next(), None);
}

#[test]
fn simple_iteration_works() {
    let mut map = OrderedMap::new();
    map.insert(1, 1);
    map.insert(2, 2);
    map.insert(3, 3);
    map.insert(4, 4);
    let mut iterator = map.iter();
    let tuple = iterator.next().unwrap();
    assert_eq!((*tuple.0, *tuple.1), (1, 1));
    let tuple = iterator.next().unwrap();
    assert_eq!((*tuple.0, *tuple.1), (2, 2));
    let tuple = iterator.next().unwrap();
    assert_eq!((*tuple.0, *tuple.1), (3, 3));
    let tuple = iterator.next().unwrap();
    assert_eq!((*tuple.0, *tuple.1), (4, 4));
}

#[test]
fn iteration_works_with_deletion() {
    let mut map = OrderedMap::new();
    map.insert(1, 1);
    map.insert(2, 2);
    map.insert(3, 3);
    map.insert(4, 4);
    map.remove(&2);
    map.remove(&3);
    let mut iterator = map.iter();
    let tuple = iterator.next().unwrap();
    assert_eq!((*tuple.0, *tuple.1), (1, 1));
    let tuple = iterator.next().unwrap();
    assert_eq!((*tuple.0, *tuple.1), (4, 4));
}

#[test]
fn insert_returns_previous_value() {
    let mut map = OrderedMap::new();
    assert_eq!(map.insert("name", 4), None);
    assert_eq!(map.insert("name", 7), Some(4));
    assert_eq!(map.insert("other", 1), None);
}

#[test]
fn remove_returns_removed_value() {
    let mut map = OrderedMap::new();
    map.insert(10, 100);
    assert_eq!(map.remove(&10), Some(100));
    assert_eq!(map.remove(&10), None);
}

#[test]
fn lookups_delegate_to_index() {
    let mut map = OrderedMap::new();
    map.insert("name", 4);
    map.insert("kumarmo2", 5);
    map.remove("name");
    assert!(!map.contains_key("name"));
    assert!(map.contains_key("kumarmo2"));
    assert_eq!(map.get("name"), None);
    assert_eq!(map.get("kumarmo2"), Some(&5));
}

#[test]
fn remove_absent_leaves_iteration_unchanged() {
    let mut map = OrderedMap::new();
    map.insert("name", 4);
    map.insert("kumarmo2", 5);
    assert_eq!(map.remove("somename"), None);
    let mut iterator = map.iter();
    assert_eq!(*(iterator.next().unwrap().1), 4);
    assert_eq!(*(iterator.next().unwrap().1), 5);
    assert_eq!(iterator.next(), None);
}

#[test]
fn exhausted_iterator_keeps_yielding_none() {
    let mut map = OrderedMap::new();
    map.insert(1, 1);
    map.remove(&1);
    let mut iterator = map.iter();
    assert_eq!(iterator.next(), None);
    assert_eq!(iterator.next(), None);
    assert_eq!(iterator.next(), None);
}

#[test]
fn fresh_iterator_reflects_current_state() {
    let mut map = OrderedMap::new();
    map.insert("name", 4);
    {
        let mut iterator = map.iter();
        assert_eq!(*(iterator.next().unwrap().1), 4);
        assert_eq!(iterator.next(), None);
    }
    map.insert("kumarmo2", 5);
    {
        let mut iterator = map.iter();
        assert_eq!(*(iterator.next().unwrap().1), 4);
        assert_eq!(*(iterator.next().unwrap().1), 5);
        assert_eq!(iterator.next(), None);
    }
    map.remove("name");
    let mut iterator = map.iter();
    assert_eq!(*(iterator.next().unwrap().1), 5);
    assert_eq!(iterator.next(), None);
}

#[test]
fn removing_every_key_empties_iteration() {
    let mut map = OrderedMap::new();
    map.insert(1, 1);
    map.insert(2, 2);
    map.remove(&1);
    map.remove(&2);
    assert_eq!(map.iter().next(), None);
}

#[test]
fn reinsertion_after_removal_appends_a_new_slot() {
    let mut map = OrderedMap::new();
    map.insert(1, 1);
    map.insert(2, 2);
    map.remove(&1);
    map.insert(1, 3);
    // The removed key's old slot stays in the order log and is live again
    // after re-insertion, so the key is yielded from both its slots.
    let mut iterator = map.iter();
    let tuple = iterator.next().unwrap();
    assert_eq!((*tuple.0, *tuple.1), (1, 3));
    let tuple = iterator.next().unwrap();
    assert_eq!((*tuple.0, *tuple.1), (2, 2));
    let tuple = iterator.next().unwrap();
    assert_eq!((*tuple.0, *tuple.1), (1, 3));
    assert_eq!(iterator.next(), None);
}
