use dep_obj::HandlerList;

#[test]
fn new_list_is_empty() {
    let list = HandlerList::new();
    assert!(list.is_empty());
    assert_eq!(list.len(), 0);
    assert_eq!(list.snapshot(), Vec::<u64>::new());
    assert!(!list.contains(0));
}

#[test]
fn registrations_keep_their_order() {
    let mut list = HandlerList::new();
    list.insert(7);
    list.insert(3);
    list.insert(5);
    assert_eq!(list.snapshot(), vec![7, 3, 5]);
    assert_eq!(list.len(), 3);
    assert_eq!(list.position(3), Some(1));
    assert_eq!(list.position(4), None);
    assert!(list.contains(5));
}

#[test]
fn revoking_keeps_the_order_of_the_rest() {
    let mut list = HandlerList::new();
    list.insert(7);
    list.insert(3);
    list.insert(5);
    list.remove(3);
    assert_eq!(list.snapshot(), vec![7, 5]);
    list.remove(7);
    assert_eq!(list.snapshot(), vec![5]);
    list.remove(5);
    assert!(list.is_empty());
}

#[test]
fn snapshot_is_not_disturbed_by_later_registrations() {
    let mut list = HandlerList::new();
    list.insert(1);
    let snapshot = list.snapshot();
    list.insert(2);
    list.remove(1);
    assert_eq!(snapshot, vec![1]);
    assert_eq!(list.snapshot(), vec![2]);
}

#[test]
fn take_all_appends_and_empties() {
    let mut list = HandlerList::new();
    list.insert(4);
    list.insert(9);
    let mut out = vec![1u64];
    list.take_all(&mut out);
    assert_eq!(out, vec![1, 4, 9]);
    assert!(list.is_empty());
}
