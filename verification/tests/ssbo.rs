use wgpurenderer::ssbo::{Ssbo, SsboManager};
use wgpurenderer::uniform::{TypeIdKey, UniformId};
use wgpurenderer::utils::{InstanceId, TypeId, TypeInfo};

fn info<T: 'static>(name: &'static str) -> TypeInfo {
    TypeInfo::new::<T>(name)
}

#[test]
fn type_info_describes_the_type() {
    let i = info::<u32>("u32");
    assert_eq!(i.size, 4);
    assert_eq!(i.align, 4);
    assert_eq!(i.name, "u32");
    assert_eq!(i.type_id, TypeId::new::<u32>());
    let pair = info::<(u8, u64)>("pair");
    assert_eq!(pair.size, std::mem::size_of::<(u8, u64)>());
    assert_eq!(pair.align, std::mem::align_of::<(u8, u64)>());
    assert_ne!(pair.type_id, i.type_id);
    assert_eq!(info::<()>("unit").size, 0);
}

#[test]
fn type_ids_tell_types_apart() {
    assert_eq!(TypeId::new::<u8>(), TypeId::new::<u8>());
    assert_ne!(TypeId::new::<u8>(), TypeId::new::<i8>());
    assert_eq!(TypeId::from(std::any::TypeId::of::<u8>()), TypeId::new::<u8>());
    assert_eq!(TypeIdKey::new::<u8>(), TypeIdKey::new::<u8>());
    assert_ne!(TypeIdKey::new::<u8>(), TypeIdKey::new::<u16>());
    assert_eq!(TypeIdKey::from(std::any::TypeId::of::<u16>()), TypeIdKey::new::<u16>());
    assert_eq!(TypeIdKey::new::<u8>().0, TypeId::new::<u8>().0);
}

#[test]
fn uniform_ids_order_by_value() {
    assert!(UniformId(1) < UniformId(2));
    assert_eq!(UniformId(3), UniformId(3));
}

#[test]
fn new_ssbo_is_empty() {
    let s = Ssbo::new(info::<u32>("u32"));
    assert_eq!(s.block_size(), 4);
    assert!(s.staged().is_empty());
    assert_eq!(s.offset_of(InstanceId(0)), None);
    assert_eq!(s.find_by_id(InstanceId(0)), Err(0));
}

#[test]
fn upload_appends_new_blocks_and_overwrites_known_ones() {
    let mut s = Ssbo::new(info::<u32>("u32"));
    s.upload(InstanceId(7), &[1, 1, 1, 1]);
    s.upload(InstanceId(2), &[2, 2, 2, 2]);
    s.upload(InstanceId(9), &[3, 3, 3, 3]);
    assert_eq!(s.staged(), &[1, 1, 1, 1, 2, 2, 2, 2, 3, 3, 3, 3]);
    assert_eq!(s.offset_of(InstanceId(7)), Some(0));
    assert_eq!(s.offset_of(InstanceId(2)), Some(4));
    assert_eq!(s.offset_of(InstanceId(9)), Some(8));
    // Blocks are found by identifier, in ascending order of identifiers.
    assert_eq!(s.find_by_id(InstanceId(2)), Ok(0));
    assert_eq!(s.find_by_id(InstanceId(7)), Ok(1));
    assert_eq!(s.find_by_id(InstanceId(9)), Ok(2));
    assert_eq!(s.find_by_id(InstanceId(8)), Err(2));
    s.upload(InstanceId(2), &[5, 6, 7, 8]);
    assert_eq!(s.staged(), &[1, 1, 1, 1, 5, 6, 7, 8, 3, 3, 3, 3]);
    assert_eq!(s.offset_of(InstanceId(2)), Some(4));
}

#[test]
fn remove_forgets_the_block_but_keeps_the_bytes() {
    let mut s = Ssbo::new(info::<u16>("u16"));
    s.upload(InstanceId(0), &[1, 2]);
    s.upload(InstanceId(1), &[3, 4]);
    assert!(s.remove(InstanceId(0)));
    assert!(!s.remove(InstanceId(0)));
    assert!(!s.remove(InstanceId(5)));
    assert_eq!(s.staged(), &[1, 2, 3, 4]);
    assert_eq!(s.offset_of(InstanceId(0)), None);
    assert_eq!(s.offset_of(InstanceId(1)), Some(2));
    s.upload(InstanceId(0), &[9, 9]);
    assert_eq!(s.staged(), &[1, 2, 3, 4, 9, 9]);
    assert_eq!(s.offset_of(InstanceId(0)), Some(4));
}

#[test]
fn zero_sized_blocks_stage_nothing() {
    let mut s = Ssbo::new(info::<()>("unit"));
    s.upload(InstanceId(3), &[]);
    assert!(s.staged().is_empty());
    assert_eq!(s.offset_of(InstanceId(3)), Some(0));
}

#[test]
fn manager_keeps_one_staging_buffer_per_type_key() {
    let mut m = SsboManager::new();
    assert_eq!(m.position_of(10), None);
    assert!(m.ssbo(10).is_none());
    m.upload_uniform(10, info::<u32>("u32"), InstanceId(0), &[1, 2, 3, 4]);
    m.upload_uniform(20, info::<u16>("u16"), InstanceId(0), &[5, 6]);
    m.upload_uniform(10, info::<u32>("u32"), InstanceId(1), &[7, 8, 9, 10]);
    m.upload_uniform(10, info::<u32>("u32"), InstanceId(0), &[4, 3, 2, 1]);
    assert_eq!(m.position_of(10), Some(0));
    assert_eq!(m.position_of(20), Some(1));
    assert_eq!(m.position_of(30), None);
    assert_eq!(m.ssbo(10).unwrap().staged(), &[4, 3, 2, 1, 7, 8, 9, 10]);
    assert_eq!(m.ssbo(20).unwrap().staged(), &[5, 6]);
    assert_eq!(m.ssbo(20).unwrap().block_size(), 2);
}

#[test]
fn get_ssbo_creates_once() {
    let mut m = SsboManager::new();
    assert_eq!(m.get_ssbo(5, info::<u64>("u64")), 0);
    assert_eq!(m.get_ssbo(6, info::<u8>("u8")), 1);
    assert_eq!(m.get_ssbo(5, info::<u64>("u64")), 0);
    assert_eq!(m.ssbo(5).unwrap().block_size(), 8);
    assert!(m.ssbo(5).unwrap().staged().is_empty());
}

#[test]
fn remove_uniform_takes_the_first_staging_buffer_that_knows_the_object() {
    let mut m = SsboManager::new();
    m.upload_uniform(1, info::<u8>("u8"), InstanceId(4), &[1]);
    m.upload_uniform(2, info::<u8>("u8"), InstanceId(4), &[2]);
    m.upload_uniform(2, info::<u8>("u8"), InstanceId(5), &[3]);
    assert!(m.remove_uniform(InstanceId(4)));
    assert_eq!(m.ssbo(1).unwrap().offset_of(InstanceId(4)), None);
    assert_eq!(m.ssbo(2).unwrap().offset_of(InstanceId(4)), Some(0));
    assert!(m.remove_uniform(InstanceId(4)));
    assert_eq!(m.ssbo(2).unwrap().offset_of(InstanceId(4)), None);
    assert_eq!(m.ssbo(2).unwrap().offset_of(InstanceId(5)), Some(1));
    assert!(!m.remove_uniform(InstanceId(4)));
    assert_eq!(m.ssbo(1).unwrap().staged(), &[1]);
    assert_eq!(m.ssbo(2).unwrap().staged(), &[2, 3]);
}

#[test]
fn manager_issues_object_ids() {
    let mut m = SsboManager::new();
    assert_eq!(m.new_id(), InstanceId(0));
    assert_eq!(m.new_id(), InstanceId(1));
}
