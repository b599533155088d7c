use wgpurenderer::handle::ResourcePool;
use wgpurenderer::storage::Storage;
use wgpurenderer::utils::{IdPool, InstanceCounter, InstanceId};

fn raw(ids: &[InstanceId]) -> Vec<u32> {
    ids.iter().map(|id| id.0).collect()
}

#[test]
fn instance_id_keeps_its_value() {
    assert_eq!(InstanceId::new(7).0, 7);
    assert_eq!(InstanceId::new(7), InstanceId(7));
    assert_ne!(InstanceId::new(7), InstanceId::new(8));
    assert!(InstanceId::new(1) < InstanceId::new(2));
}

#[test]
fn instance_counter_counts() {
    let mut c = InstanceCounter::new();
    assert_eq!(c.value(), 1);
    c.increment();
    c.increment();
    assert_eq!(c.value(), 3);
    c.decrement();
    assert_eq!(c.value(), 2);
    c.decrement();
    c.decrement();
    assert_eq!(c.value(), 0);
}

#[test]
fn id_pool_counts_up_from_zero() {
    let mut pool = IdPool::new();
    assert_eq!(pool.get_next(), InstanceId(0));
    assert_eq!(pool.get_next(), InstanceId(1));
    assert_eq!(pool.get_next(), InstanceId(2));
}

#[test]
fn id_pool_with_base_starts_at_base() {
    let mut pool = IdPool::with_base(10);
    assert_eq!(pool.get_next(), InstanceId(10));
    assert_eq!(pool.get_next(), InstanceId(11));
}

#[test]
fn id_pool_reuses_last_freed_first() {
    let mut pool = IdPool::new();
    let a = pool.get_next();
    let b = pool.get_next();
    let c = pool.get_next();
    assert_eq!((a.0, b.0, c.0), (0, 1, 2));
    pool.free(a);
    pool.free(c);
    assert_eq!(pool.get_next(), InstanceId(2));
    assert_eq!(pool.get_next(), InstanceId(0));
    assert_eq!(pool.get_next(), InstanceId(3));
}

#[test]
fn id_pool_free_then_next_returns_same_id() {
    let mut pool = IdPool::new();
    let _ = pool.get_next();
    let b = pool.get_next();
    pool.free(b);
    assert_eq!(pool.get_next(), b);
}

#[test]
fn storage_starts_empty() {
    let s: Storage<u8> = Storage::new();
    assert_eq!(s.len(), 0);
    assert!(s.live_ids().is_empty());
    assert!(s.get(InstanceId(0)).is_none());
    assert!(!s.is_live(InstanceId(0)));
}

#[test]
fn storage_create_returns_fresh_ids() {
    let mut s = Storage::new();
    let a = s.create("a");
    let b = s.create("b");
    let c = s.create("c");
    assert_eq!(raw(&[a, b, c]), vec![0, 1, 2]);
    assert_eq!(s.len(), 3);
    assert_eq!(s.get(a), Some(&"a"));
    assert_eq!(s.get(b), Some(&"b"));
    assert_eq!(s.get(c), Some(&"c"));
}

#[test]
fn storage_ids_stay_sorted_and_unique() {
    let mut s = Storage::new();
    let ids: Vec<InstanceId> = (0..6).map(|i| s.create(i * 10)).collect();
    assert_eq!(raw(&s.live_ids()), vec![0, 1, 2, 3, 4, 5]);
    assert_eq!(s.delete(ids[1]), 10);
    assert_eq!(s.delete(ids[4]), 40);
    assert_eq!(raw(&s.live_ids()), vec![0, 2, 3, 5]);
    // Recycled identifiers, last freed first, take their sorted place.
    let x = s.create(400);
    let y = s.create(100);
    let z = s.create(600);
    assert_eq!(raw(&[x, y, z]), vec![4, 1, 6]);
    assert_eq!(raw(&s.live_ids()), vec![0, 1, 2, 3, 4, 5, 6]);
    assert_eq!(s.get(x), Some(&400));
    assert_eq!(s.get(y), Some(&100));
    assert_eq!(s.get(z), Some(&600));
    assert_eq!(s.get(ids[2]), Some(&20));
    assert_eq!(s.get(ids[5]), Some(&50));
}

#[test]
fn storage_lookup_succeeds_exactly_for_live_ids() {
    let mut s = Storage::new();
    let a = s.create('a');
    let b = s.create('b');
    let c = s.create('c');
    s.delete(b);
    for id in 0..8u32 {
        let live = id == a.0 || id == c.0;
        assert_eq!(s.is_live(InstanceId(id)), live);
        assert_eq!(s.get(InstanceId(id)).is_some(), live);
        assert_eq!(s.find_by_id(InstanceId(id)).is_ok(), live);
    }
}

#[test]
fn storage_find_by_id_gives_positions() {
    let mut s = Storage::new();
    let a = s.create(0u8);
    let b = s.create(0u8);
    let c = s.create(0u8);
    s.delete(b);
    assert_eq!(s.find_by_id(a), Ok(0));
    assert_eq!(s.find_by_id(c), Ok(1));
    assert_eq!(s.find_by_id(b), Err(1));
    assert_eq!(s.find_by_id(InstanceId(9)), Err(2));
}

#[test]
fn storage_get_mut_changes_one_value() {
    let mut s = Storage::new();
    let a = s.create(1);
    let b = s.create(2);
    *s.get_mut(a).unwrap() = 10;
    assert_eq!(s.get(a), Some(&10));
    assert_eq!(s.get(b), Some(&2));
    assert!(s.get_mut(InstanceId(5)).is_none());
}

#[test]
fn handles_compare_by_id() {
    let mut pool = ResourcePool::new();
    let a = pool.create("a");
    let b = pool.create("b");
    let a2 = pool.clone_handle(&a);
    assert!(a == a2);
    assert!(a != b);
    assert_eq!(a.id(), a2.id());
    assert_eq!(a.id(), InstanceId(0));
    assert_eq!(b.id(), InstanceId(1));
}

#[test]
fn entry_lives_until_last_handle_is_dropped() {
    let n = 5;
    let mut pool = ResourcePool::new();
    let first = pool.create(String::from("pipeline"));
    let id = first.id();
    let mut handles = vec![first];
    for _ in 0..n {
        let h = pool.clone_handle(&handles[0]);
        handles.push(h);
    }
    assert_eq!(pool.ref_count(id), Some(n + 1));
    let mut left = n + 1;
    while let Some(h) = handles.pop() {
        let dropped = pool.drop_handle(h);
        left -= 1;
        if left > 0 {
            assert_eq!(dropped, None);
            assert!(pool.contains(id));
            assert_eq!(pool.ref_count(id), Some(left));
            assert_eq!(pool.get(id).map(|s| s.as_str()), Some("pipeline"));
        } else {
            assert_eq!(dropped, Some(String::from("pipeline")));
            assert!(!pool.contains(id));
            assert_eq!(pool.ref_count(id), None);
            assert!(pool.get(id).is_none());
        }
    }
    assert_eq!(pool.len(), 0);
}

#[test]
fn id_is_recycled_after_last_drop_only() {
    let mut pool = ResourcePool::new();
    let a = pool.create(1);
    let a2 = pool.clone_handle(&a);
    assert_eq!(pool.drop_handle(a), None);
    let b = pool.create(2);
    assert_eq!(b.id(), InstanceId(1));
    assert_eq!(pool.drop_handle(a2), Some(1));
    let c = pool.create(3);
    assert_eq!(c.id(), InstanceId(0));
    assert_eq!(pool.get(c.id()), Some(&3));
    assert_eq!(pool.get(b.id()), Some(&2));
    assert_eq!(pool.len(), 2);
}
