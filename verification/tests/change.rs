use dep_obj::Change;
use dep_obj::Items;

#[test]
fn change_keeps_old_and_new() {
    let c = Change::new_self(1i32, 2i32);
    assert_eq!(*c.old_value(), 1);
    assert_eq!(*c.new(), 2);
    assert_eq!(c.into_old(), 1);
    assert_eq!(c.into_new(), 2);
    assert_eq!(c.into_old_new(), (1, 2));
}

#[test]
fn change_of_equal_values_is_still_a_pair() {
    let c = Change::new_self(true, true);
    assert_eq!(c.into_old_new(), (true, true));
}

#[test]
fn changes_compare_by_both_values() {
    assert_eq!(Change::new_self(1u8, 2u8), Change::new_self(1u8, 2u8));
    assert_ne!(Change::new_self(1u8, 2u8), Change::new_self(2u8, 1u8));
}

#[test]
fn items_hold_what_they_were_made_of() {
    let items = Items::new(vec![3i32, 1, 2]);
    assert_eq!(items.len(), 3);
    assert!(!items.is_empty());
    assert_eq!(items.items(), &vec![3, 1, 2]);
    assert_eq!(items.into_items(), vec![3, 1, 2]);
}

#[test]
fn items_may_be_empty() {
    let items: Items<i32> = Items::new(Vec::new());
    assert_eq!(items.len(), 0);
    assert!(items.is_empty());
}

#[test]
fn changes_are_ordered_by_old_then_new() {
    assert!(Change::new_self(1u8, 9u8) < Change::new_self(2u8, 0u8));
    assert!(Change::new_self(1u8, 2u8) < Change::new_self(1u8, 3u8));
    assert!(Change::new_self(1u8, 2u8) <= Change::new_self(1u8, 2u8));
    assert_eq!(Change::new_self(3u8, 1u8).max(Change::new_self(2u8, 9u8)), Change::new_self(3u8, 1u8));
}

#[test]
fn items_are_ordered_as_sequences() {
    assert!(Items::new(vec![1, 2]) < Items::new(vec![1, 3]));
    assert!(Items::new(vec![1]) < Items::new(vec![1, 0]));
    assert!(Items::new(Vec::<i32>::new()) < Items::new(vec![0]));
}
