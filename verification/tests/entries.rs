use wgpurenderer::entries::SortedEntries;

#[test]
fn entries_are_kept_in_key_order() {
    let mut t = SortedEntries::new();
    for key in [50u32, 10, 40, 20, 30] {
        t.insert(key, key * 2);
    }
    assert_eq!(t.len(), 5);
    let keys: Vec<u32> = (0..t.len()).map(|i| t.key_at(i)).collect();
    assert_eq!(keys, vec![10, 20, 30, 40, 50]);
    let values: Vec<u32> = (0..t.len()).map(|i| *t.value_at(i)).collect();
    assert_eq!(values, vec![20, 40, 60, 80, 100]);
}

#[test]
fn find_answers_with_position_or_insertion_point() {
    let mut t = SortedEntries::new();
    for key in [10u32, 20, 30] {
        t.insert(key, ());
    }
    assert_eq!(t.find(10), Ok(0));
    assert_eq!(t.find(20), Ok(1));
    assert_eq!(t.find(30), Ok(2));
    assert_eq!(t.find(5), Err(0));
    assert_eq!(t.find(15), Err(1));
    assert_eq!(t.find(35), Err(3));
}

#[test]
fn remove_returns_the_value_once() {
    let mut t = SortedEntries::new();
    t.insert(1, "one");
    t.insert(2, "two");
    assert_eq!(t.remove(1), Some("one"));
    assert_eq!(t.remove(1), None);
    assert_eq!(t.remove(7), None);
    assert_eq!(t.get(2), Some(&"two"));
    assert_eq!(t.get(1), None);
    assert_eq!(t.len(), 1);
}

#[test]
fn get_mut_changes_the_value_in_place() {
    let mut t = SortedEntries::new();
    t.insert(3, 30);
    t.insert(1, 10);
    *t.get_mut(3).unwrap() += 1;
    assert_eq!(t.get(3), Some(&31));
    assert_eq!(t.get(1), Some(&10));
    assert!(t.get_mut(2).is_none());
}
