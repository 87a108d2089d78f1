use snjs_core::resources::ResourceTable;

struct FakeResource {
    not_empty: u128,
}

impl FakeResource {
    fn new(value: u128) -> FakeResource {
        FakeResource { not_empty: value }
    }
}

#[test]
fn test_create_resource_table_default() {
    let table: ResourceTable<FakeResource> = ResourceTable::default();
    assert_eq!(table.len(), 0);
}

#[test]
fn test_add_to_resource_table_not_empty() {
    let mut table = ResourceTable::default();
    table.add("fake1", FakeResource::new(1));
    table.add("fake2", FakeResource::new(2));
    assert_eq!(table.len(), 2);
}

#[test]
fn test_add_to_resource_table_are_contiguous() {
    let mut table = ResourceTable::default();
    let rid1 = table.add("fake1", FakeResource::new(1));
    let rid2 = table.add("fake2", FakeResource::new(2));
    assert_eq!(rid1 + 1, rid2);
}

#[test]
fn test_get_from_resource_table_is_what_was_given() {
    let mut table = ResourceTable::default();
    let rid = table.add("fake", FakeResource::new(7));
    let resource = table.get(rid);
    assert_eq!(resource.unwrap().not_empty, 7);
}

#[test]
fn test_remove_from_resource_table() {
    let mut table = ResourceTable::default();
    let rid1 = table.add("fake1", FakeResource::new(1));
    let rid2 = table.add("fake2", FakeResource::new(2));
    assert_eq!(table.len(), 2);
    table.close(rid1);
    assert_eq!(table.len(), 1);
    table.close(rid2);
    assert_eq!(table.len(), 0);
}

#[test]
fn test_take_from_resource_table() {
    let mut table = ResourceTable::default();
    let rid1 = table.add("fake1", FakeResource::new(1));
    let rid2 = table.add("fake2", FakeResource::new(2));
    assert_eq!(table.len(), 2);
    let res1 = table.remove(rid1);
    assert_eq!(table.len(), 1);
    assert!(res1.is_some());
    let res2 = table.remove(rid2);
    assert_eq!(table.len(), 0);
    assert!(res2.is_some());
}

#[test]
fn first_resource_id_is_zero() {
    let mut table = ResourceTable::new();
    assert_eq!(table.add("a", 10u32), 0);
    assert_eq!(table.add("b", 20u32), 1);
}

#[test]
fn get_after_close_is_absent() {
    let mut table = ResourceTable::new();
    let rid = table.add("sock", 5u32);
    assert!(table.has(rid));
    assert_eq!(table.close(rid), Some(()));
    assert!(table.get(rid).is_none());
    assert!(!table.has(rid));
}

#[test]
fn double_close_returns_none() {
    let mut table = ResourceTable::new();
    let rid = table.add("sock", 5u32);
    assert_eq!(table.close(rid), Some(()));
    assert_eq!(table.close(rid), None);
}

#[test]
fn remove_hands_value_out_then_get_is_absent() {
    let mut table = ResourceTable::new();
    let rid = table.add("file", String::from("payload"));
    assert_eq!(table.remove(rid), Some(String::from("payload")));
    assert!(table.get(rid).is_none());
    assert_eq!(table.remove(rid), None);
}

#[test]
fn closed_ids_are_not_reused() {
    let mut table = ResourceTable::new();
    let a = table.add("a", 1u8);
    table.close(a);
    let b = table.add("b", 2u8);
    assert_ne!(a, b);
    assert_eq!(b, a + 1);
}

#[test]
fn unknown_id_is_absent() {
    let table: ResourceTable<u8> = ResourceTable::new();
    assert!(table.get(42).is_none());
    assert!(!table.has(42));
}

#[test]
fn get_mut_changes_the_value_in_place() {
    let mut table = ResourceTable::new();
    let rid = table.add("counter", 1u64);
    if let Some(v) = table.get_mut(rid) {
        *v = 9;
    }
    assert_eq!(table.get(rid), Some(&9));
    assert!(table.get_mut(rid + 1).is_none());
}

#[test]
fn entries_lists_tags_of_live_resources() {
    let mut table = ResourceTable::new();
    let a = table.add("alpha", 1u8);
    let b = table.add("beta", 2u8);
    let c = table.add("gamma", 3u8);
    table.close(b);
    let e = table.entries();
    assert_eq!(e.len(), 2);
    assert_eq!(e.get(&a).map(|s| s.as_str()), Some("alpha"));
    assert_eq!(e.get(&c).map(|s| s.as_str()), Some("gamma"));
    assert!(e.get(&b).is_none());
}

#[test]
fn checked_get_reports_missing_resource() {
    let mut table = ResourceTable::new();
    let rid = table.add("a", 4u8);
    assert_eq!(table.get_checked(rid).ok(), Some(&4));
    match table.get_checked(rid + 5) {
        Err(snjs_core::error::CoreError::ResourceNotFound { rid: missing }) => assert_eq!(missing, rid + 5),
        _ => panic!("expected a not-found error"),
    }
}
