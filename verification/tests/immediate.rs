use wgpurenderer::immediate::{ByteRange, ImmediateManager, MIN_BUFFER_LEN};
use wgpurenderer::utils::InstanceId;

fn range(start: usize, end: usize) -> Option<ByteRange> {
    Some(ByteRange { start, end })
}

#[test]
fn immediate_manager_starts_empty() {
    let m = ImmediateManager::new();
    assert_eq!(m.buffer_len(), 0);
    assert_eq!(m.len(), 0);
    assert!(m.get(InstanceId(0)).is_none());
    assert_eq!(m.range_of(InstanceId(0)), None);
}

#[test]
fn freed_range_is_reused_at_the_same_offset() {
    let mut m = ImmediateManager::new();
    let a = m.add(16);
    assert_eq!(m.range_of(a), range(0, 16));
    assert!(m.remove(a));
    assert_eq!(m.range_of(a), None);
    let b = m.add(16);
    assert_eq!(b, a);
    assert_eq!(m.range_of(b), range(0, 16));
}

#[test]
fn growth_covers_the_new_range() {
    let mut m = ImmediateManager::new();
    let a = m.add(100);
    let r = m.range_of(a).unwrap();
    assert_eq!((r.start, r.end), (0, 100));
    assert!(m.buffer_len() >= 100);
    assert!(r.end <= m.buffer_len());
    assert_eq!(m.buffer_len(), 200);
    assert_eq!(m.get(a).unwrap().len(), 100);
}

#[test]
fn small_first_allocation_takes_the_minimum_length() {
    let mut m = ImmediateManager::new();
    let a = m.add(4);
    assert_eq!(m.range_of(a), range(0, 4));
    assert_eq!(m.buffer_len(), MIN_BUFFER_LEN);
    assert_eq!(MIN_BUFFER_LEN, 64);
}

#[test]
fn buffer_grows_to_twice_the_end_of_the_allocation() {
    let mut m = ImmediateManager::new();
    let _ = m.add(40);
    assert_eq!(m.buffer_len(), 80);
    let b = m.add(40);
    assert_eq!(m.range_of(b), range(40, 80));
    assert_eq!(m.buffer_len(), 80);
    let c = m.add(10);
    assert_eq!(m.range_of(c), range(80, 90));
    assert_eq!(m.buffer_len(), 180);
}

#[test]
fn allocations_are_packed_in_order() {
    let mut m = ImmediateManager::new();
    let a = m.add(8);
    let b = m.add(16);
    let c = m.add(4);
    assert_eq!(m.range_of(a), range(0, 8));
    assert_eq!(m.range_of(b), range(8, 24));
    assert_eq!(m.range_of(c), range(24, 28));
    assert_eq!(m.len(), 3);
}

#[test]
fn first_fit_takes_the_first_gap_that_is_large_enough() {
    let mut m = ImmediateManager::new();
    let a = m.add(8);
    let b = m.add(16);
    let c = m.add(8);
    let d = m.add(32);
    let e = m.add(8);
    assert_eq!(m.range_of(e), range(64, 72));
    assert!(m.remove(a));
    assert!(m.remove(c));
    assert!(m.remove(d));
    // Gaps: 0..8, 24..64. Twelve bytes do not fit the first one.
    let x = m.add(12);
    assert_eq!(m.range_of(x), range(24, 36));
    // Eight bytes fit the first gap exactly.
    let y = m.add(8);
    assert_eq!(m.range_of(y), range(0, 8));
    // The rest of the second gap is found next.
    let z = m.add(28);
    assert_eq!(m.range_of(z), range(36, 64));
    assert_eq!(m.range_of(b), range(8, 24));
    assert_eq!(m.range_of(e), range(64, 72));
}

#[test]
fn adjacent_gaps_count_as_one_gap_between_ranges() {
    let mut m = ImmediateManager::new();
    let a = m.add(8);
    let b = m.add(8);
    let c = m.add(8);
    assert!(m.remove(a));
    assert!(m.remove(b));
    let x = m.add(16);
    assert_eq!(m.range_of(x), range(0, 16));
    assert_eq!(m.range_of(c), range(16, 24));
}

#[test]
fn allocation_past_the_last_range_does_not_need_a_gap_before() {
    let mut m = ImmediateManager::new();
    let a = m.add(8);
    let b = m.add(8);
    assert!(m.remove(a));
    let x = m.add(9);
    assert_eq!(m.range_of(x), range(16, 25));
    assert_eq!(m.range_of(b), range(8, 16));
}

#[test]
fn zero_size_allocation_occupies_an_empty_range() {
    let mut m = ImmediateManager::new();
    let z = m.add(0);
    assert_eq!(m.range_of(z), range(0, 0));
    assert_eq!(m.buffer_len(), 0);
    assert_eq!(m.get(z).unwrap().len(), 0);
    let a = m.add(8);
    assert_eq!(m.range_of(a), range(0, 8));
    let z2 = m.add(0);
    assert_eq!(m.range_of(z2), range(0, 0));
    assert!(m.remove(z));
    assert!(m.remove(z2));
    assert_eq!(m.range_of(a), range(0, 8));
}

#[test]
fn removal_keeps_the_buffer_and_the_other_ranges() {
    let mut m = ImmediateManager::new();
    let a = m.add(32);
    let b = m.add(32);
    let len = m.buffer_len();
    m.get_mut(b).unwrap().fill(7);
    assert!(m.remove(a));
    assert_eq!(m.buffer_len(), len);
    assert_eq!(m.range_of(b), range(32, 64));
    assert!(m.get(b).unwrap().iter().all(|x| *x == 7));
    assert_eq!(m.len(), 1);
}

#[test]
fn remove_of_a_dead_id_changes_nothing() {
    let mut m = ImmediateManager::new();
    let a = m.add(8);
    assert!(!m.remove(InstanceId(5)));
    assert!(m.remove(a));
    assert!(!m.remove(a));
    assert_eq!(m.len(), 0);
    let b = m.add(8);
    assert_eq!(b, a);
}

#[test]
fn get_and_get_mut_see_the_same_bytes() {
    let mut m = ImmediateManager::new();
    let a = m.add(4);
    let b = m.add(4);
    assert_eq!(m.get(a).unwrap(), &[0, 0, 0, 0]);
    m.get_mut(a).unwrap().copy_from_slice(&[1, 2, 3, 4]);
    m.get_mut(b).unwrap()[0] = 9;
    assert_eq!(m.get(a).unwrap(), &[1, 2, 3, 4]);
    assert_eq!(m.get(b).unwrap(), &[9, 0, 0, 0]);
    assert!(m.get_mut(InstanceId(7)).is_none());
    assert!(m.get(InstanceId(7)).is_none());
}

#[test]
fn growth_keeps_the_bytes_already_stored() {
    let mut m = ImmediateManager::new();
    let a = m.add(64);
    m.get_mut(a).unwrap().fill(0xAB);
    let b = m.add(1000);
    assert!(m.buffer_len() >= 1064);
    assert!(m.get(a).unwrap().iter().all(|x| *x == 0xAB));
    assert!(m.get(b).unwrap().iter().all(|x| *x == 0));
}
