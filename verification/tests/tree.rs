use dep_obj::Glob;
use dep_obj::Store;

fn store() -> Store<i32> {
    Store::new(vec![(10, true), (20, false)], vec![true, false], 1)
}

#[test]
fn new_store_has_no_owner() {
    let s = store();
    assert!(s.is_empty());
    assert_eq!(s.len(), 0);
    assert_eq!(s.prop_count(), 2);
    assert_eq!(s.event_count(), 2);
    assert_eq!(s.vec_count(), 1);
    assert!(!s.contains(Glob { id: 0 }));
}

#[test]
fn owners_get_handles_in_order() {
    let mut s = store();
    let a = s.insert(None);
    let b = s.insert(Some(a));
    let c = s.insert(None);
    assert_eq!(a, Glob { id: 0 });
    assert_eq!(b, Glob { id: 1 });
    assert_eq!(c, Glob { id: 2 });
    assert_eq!(s.len(), 3);
    assert!(s.contains(c));
    assert!(!s.contains(Glob { id: 3 }));
}

#[test]
fn fresh_owner_has_the_layouts_slots() {
    let mut s = store();
    let a = s.insert(None);
    let owner = a.get(&s);
    assert_eq!(owner.prop_entry(0).default_value(), 10);
    assert!(owner.prop_entry(0).inherits());
    assert_eq!(owner.prop_entry(1).default_value(), 20);
    assert!(!owner.prop_entry(1).inherits());
    assert_eq!(owner.prop_entry(0).local(), None);
    assert_eq!(owner.prop_entry(0).style(), None);
    assert_eq!(owner.prop_entry(0).binding(), None);
    assert!(!owner.prop_entry(0).has_handlers());
    assert!(owner.event_entry(0).bubble());
    assert!(!owner.event_entry(1).bubble());
    assert!(owner.core_base().style().is_none());
}

#[test]
fn parent_is_what_the_owner_was_made_under() {
    let mut s = store();
    let root = s.insert(None);
    let a = s.insert(Some(root));
    let b = s.insert(Some(a));
    assert_eq!(root.parent(&s), None);
    assert_eq!(a.parent(&s), Some(root));
    assert_eq!(b.parent(&s), Some(a));
}

#[test]
fn children_are_the_circle_from_the_last_childs_next() {
    let mut s = store();
    let root = s.insert(None);
    assert_eq!(root.last_child(&s), None);
    let a = s.insert(Some(root));
    let b = s.insert(Some(root));
    let c = s.insert(Some(root));
    assert_eq!(root.last_child(&s), Some(c));
    assert_eq!(c.next(&s), a);
    assert_eq!(a.next(&s), b);
    assert_eq!(b.next(&s), c);
    let mut seen = Vec::new();
    let last = root.last_child(&s).unwrap();
    let mut child = last;
    loop {
        child = child.next(&s);
        seen.push(child);
        if child == last {
            break;
        }
    }
    assert_eq!(seen, vec![a, b, c]);
}

#[test]
fn owner_without_parent_is_its_own_next() {
    let mut s = store();
    let root = s.insert(None);
    let other = s.insert(None);
    assert_eq!(root.next(&s), root);
    assert_eq!(other.next(&s), other);
    assert_eq!(other.last_child(&s), None);
}

#[test]
fn only_child_is_its_own_next() {
    let mut s = store();
    let root = s.insert(None);
    let a = s.insert(Some(root));
    assert_eq!(a.next(&s), a);
    assert_eq!(root.last_child(&s), Some(a));
}

#[test]
fn self_and_parents_goes_up_to_the_root() {
    let mut s = store();
    let root = s.insert(None);
    let a = s.insert(Some(root));
    let other = s.insert(Some(root));
    let b = s.insert(Some(a));
    assert_eq!(b.self_and_parents(&s), vec![b, a, root]);
    assert_eq!(other.self_and_parents(&s), vec![other, root]);
    assert_eq!(root.self_and_parents(&s), vec![root]);
}
