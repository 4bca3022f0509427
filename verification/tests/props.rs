use dep_obj::Binding;
use dep_obj::Change;
use dep_obj::DepProp;
use dep_obj::Glob;
use dep_obj::Notification;
use dep_obj::Payload;
use dep_obj::Store;

const COLOR: usize = 0;
const WIDTH: usize = 1;

fn store() -> Store<i32> {
    Store::new(vec![(10, true), (20, false)], Vec::new(), 0)
}

fn value(target: Glob, handler: u64, v: i32) -> Notification<i32> {
    Notification { target, handler, payload: Payload::Value(v) }
}

fn change(target: Glob, handler: u64, old: i32, new: i32) -> Notification<i32> {
    Notification { target, handler, payload: Payload::Change(Change::new_self(old, new)) }
}

#[test]
fn effective_value_starts_as_the_default() {
    let mut s = store();
    let a = s.insert(None);
    assert_eq!(DepProp::new(COLOR).current_value(&s, a), 10);
    assert_eq!(DepProp::new(WIDTH).current_value(&s, a), 20);
}

#[test]
fn local_value_comes_before_everything() {
    let mut s = store();
    let root = s.insert(None);
    let a = s.insert(Some(root));
    let color = DepProp::new(COLOR);
    color.set(&mut s, root, 1);
    color.set(&mut s, a, 2);
    assert_eq!(color.current_value(&s, a), 2);
    assert_eq!(color.non_local_value(&s, a), 1);
    assert_eq!(color.unstyled_non_local_value(&s, a), 1);
    assert_eq!(color.current_value(&s, root), 1);
}

#[test]
fn inheriting_property_takes_the_parents_value() {
    let mut s = store();
    let root = s.insert(None);
    let a = s.insert(Some(root));
    let b = s.insert(Some(a));
    let color = DepProp::new(COLOR);
    color.set(&mut s, root, 7);
    assert_eq!(color.current_value(&s, a), 7);
    assert_eq!(color.current_value(&s, b), 7);
    color.set(&mut s, a, 8);
    assert_eq!(color.current_value(&s, b), 8);
    assert_eq!(color.current_value(&s, root), 7);
}

#[test]
fn other_property_falls_straight_to_the_default() {
    let mut s = store();
    let root = s.insert(None);
    let a = s.insert(Some(root));
    let width = DepProp::new(WIDTH);
    width.set(&mut s, root, 7);
    assert_eq!(width.current_value(&s, root), 7);
    assert_eq!(width.current_value(&s, a), 20);
}

#[test]
fn set_then_unset_restores_the_value() {
    let mut s = store();
    let root = s.insert(None);
    let a = s.insert(Some(root));
    let color = DepProp::new(COLOR);
    color.set(&mut s, root, 3);
    let before = color.current_value(&s, a);
    assert_eq!(before, 3);
    color.set(&mut s, a, 99);
    assert_eq!(color.current_value(&s, a), 99);
    color.unset(&mut s, a);
    assert_eq!(color.current_value(&s, a), before);
    assert_eq!(a.get(&s).prop_entry(COLOR).local(), None);
}

#[test]
fn set_tells_value_handlers_then_change_handlers() {
    let mut s = store();
    let a = s.insert(None);
    let color = DepProp::new(COLOR);
    let c1 = color.change_source(a).handle(&mut s).handler_id;
    let v1 = color.value_source(a).handle(&mut s).handler_id;
    let c2 = color.change_source(a).handle(&mut s).handler_id;
    let v2 = color.value_source(a).handle(&mut s).handler_id;
    assert_eq!((c1, v1, c2, v2), (0, 1, 2, 3));
    let notes = color.set(&mut s, a, 5);
    assert_eq!(
        notes,
        vec![value(a, v1, 5), value(a, v2, 5), change(a, c1, 10, 5), change(a, c2, 10, 5)]
    );
}

#[test]
fn setting_the_same_local_value_tells_nobody() {
    let mut s = store();
    let a = s.insert(None);
    let color = DepProp::new(COLOR);
    color.value_source(a).handle(&mut s);
    color.change_source(a).handle(&mut s);
    assert_eq!(color.set(&mut s, a, 5).len(), 2);
    assert_eq!(color.set(&mut s, a, 5), Vec::new());
}

#[test]
fn setting_the_effective_value_tells_nobody() {
    let mut s = store();
    let a = s.insert(None);
    let color = DepProp::new(COLOR);
    color.value_source(a).handle(&mut s);
    color.change_source(a).handle(&mut s);
    assert_eq!(color.set(&mut s, a, 10), Vec::new());
    assert_eq!(a.get(&s).prop_entry(COLOR).local(), Some(10));
    assert_eq!(color.unset(&mut s, a), Vec::new());
    assert_eq!(a.get(&s).prop_entry(COLOR).local(), None);
    assert_eq!(color.unset(&mut s, a), Vec::new());
}

#[test]
fn local_to_local_change_carries_both_local_values() {
    let mut s = store();
    let a = s.insert(None);
    let color = DepProp::new(COLOR);
    let c = color.change_source(a).handle(&mut s).handler_id;
    color.set(&mut s, a, 1);
    assert_eq!(color.set(&mut s, a, 2), vec![change(a, c, 1, 2)]);
    assert_eq!(color.unset(&mut s, a), vec![change(a, c, 2, 10)]);
}

#[test]
fn value_subscription_returns_the_value_without_a_call() {
    let mut s = store();
    let a = s.insert(None);
    let color = DepProp::new(COLOR);
    color.set(&mut s, a, 4);
    let handled = color.value_source(a).handle(&mut s);
    assert_eq!(handled.value, 4);
    assert_eq!(handled.handler_id, 0);
}

#[test]
fn change_subscription_replays_a_value_that_is_not_the_default() {
    let mut s = store();
    let a = s.insert(None);
    let color = DepProp::new(COLOR);
    let at_default = color.change_source(a).handle(&mut s);
    assert_eq!(at_default.args, None);
    color.set(&mut s, a, 4);
    let replayed = color.change_source(a).handle(&mut s);
    assert_eq!(replayed.args, Some(Change::new_self(10, 4)));
    color.set(&mut s, a, 10);
    let same_as_default = color.change_source(a).handle(&mut s);
    assert_eq!(same_as_default.args, None);
}

#[test]
fn change_subscription_replays_an_inherited_value() {
    let mut s = store();
    let root = s.insert(None);
    let a = s.insert(Some(root));
    let color = DepProp::new(COLOR);
    color.set(&mut s, root, 6);
    let replayed = color.change_source(a).handle(&mut s);
    assert_eq!(replayed.args, Some(Change::new_self(10, 6)));
}

#[test]
fn change_on_parent_tells_inheriting_child_but_not_overriding_one() {
    let mut s = store();
    let root = s.insert(None);
    let a = s.insert(Some(root));
    let b = s.insert(Some(root));
    let below_b = s.insert(Some(b));
    let color = DepProp::new(COLOR);
    color.set(&mut s, b, 50);
    let on_a = color.change_source(a).handle(&mut s).handler_id;
    let on_b = color.change_source(b).handle(&mut s).handler_id;
    let on_below_b = color.value_source(below_b).handle(&mut s).handler_id;
    assert_ne!(on_a, on_b);
    assert_ne!(on_b, on_below_b);
    let notes = color.set(&mut s, root, 1);
    assert_eq!(notes, vec![change(a, on_a, 10, 1)]);
    assert_eq!(color.current_value(&s, b), 50);
    assert_eq!(color.current_value(&s, below_b), 50);
    let notes = color.set(&mut s, b, 51);
    assert_eq!(notes, vec![change(b, on_b, 50, 51), value(below_b, on_below_b, 51)]);
}

#[test]
fn propagation_goes_through_children_without_handlers() {
    let mut s = store();
    let root = s.insert(None);
    let a = s.insert(Some(root));
    let b = s.insert(Some(a));
    let c = s.insert(Some(b));
    let sibling = s.insert(Some(root));
    let color = DepProp::new(COLOR);
    let on_c = color.value_source(c).handle(&mut s).handler_id;
    let on_sibling = color.value_source(sibling).handle(&mut s).handler_id;
    let on_root = color.value_source(root).handle(&mut s).handler_id;
    let notes = color.set(&mut s, root, 2);
    assert_eq!(
        notes,
        vec![value(root, on_root, 2), value(c, on_c, 2), value(sibling, on_sibling, 2)]
    );
}

#[test]
fn children_are_told_in_their_order_each_before_the_next() {
    let mut s = store();
    let root = s.insert(None);
    let a = s.insert(Some(root));
    let b = s.insert(Some(root));
    let below_a = s.insert(Some(a));
    let color = DepProp::new(COLOR);
    let on_b = color.value_source(b).handle(&mut s).handler_id;
    let on_below_a = color.value_source(below_a).handle(&mut s).handler_id;
    let on_a = color.value_source(a).handle(&mut s).handler_id;
    let notes = color.set(&mut s, root, 2);
    assert_eq!(notes, vec![value(a, on_a, 2), value(below_a, on_below_a, 2), value(b, on_b, 2)]);
}

#[test]
fn property_that_does_not_inherit_tells_no_child() {
    let mut s = store();
    let root = s.insert(None);
    let a = s.insert(Some(root));
    let width = DepProp::new(WIDTH);
    let on_a = width.value_source(a).handle(&mut s).handler_id;
    assert_eq!(width.set(&mut s, root, 2), Vec::new());
    assert_eq!(width.set(&mut s, a, 3), vec![value(a, on_a, 3)]);
}

#[test]
fn cache_follows_registrations_up_and_down() {
    let mut s = store();
    let root = s.insert(None);
    let a = s.insert(Some(root));
    let b = s.insert(Some(a));
    let color = DepProp::new(COLOR);
    assert!(!root.get(&s).prop_entry(COLOR).has_handlers());
    let first = color.value_source(b).handle(&mut s).handler_id;
    assert!(b.get(&s).prop_entry(COLOR).has_handlers());
    assert!(a.get(&s).prop_entry(COLOR).has_handlers());
    assert!(root.get(&s).prop_entry(COLOR).has_handlers());
    let second = color.change_source(b).handle(&mut s).handler_id;
    color.value_source(b).unhandle(&mut s, first);
    assert!(root.get(&s).prop_entry(COLOR).has_handlers());
    color.change_source(b).unhandle(&mut s, second);
    assert!(!b.get(&s).prop_entry(COLOR).has_handlers());
    assert!(!a.get(&s).prop_entry(COLOR).has_handlers());
    assert!(!root.get(&s).prop_entry(COLOR).has_handlers());
    assert_eq!(color.set(&mut s, root, 2), Vec::new());
}

#[test]
fn cache_tells_of_handlers_far_below() {
    let mut s = store();
    let root = s.insert(None);
    let a = s.insert(Some(root));
    let b = s.insert(Some(a));
    let color = DepProp::new(COLOR);
    let width = DepProp::new(WIDTH);
    assert!(!color.children_have_handlers(&s, root));
    let id = color.value_source(b).handle(&mut s).handler_id;
    width.value_source(b).handle(&mut s);
    assert!(color.children_have_handlers(&s, root));
    assert!(color.children_have_handlers(&s, a));
    assert!(!color.children_have_handlers(&s, b));
    assert!(!width.children_have_handlers(&s, root));
    assert!(!width.children_have_handlers(&s, a));
    color.value_source(b).unhandle(&mut s, id);
    assert!(!color.children_have_handlers(&s, root));
    assert!(!color.children_have_handlers(&s, a));
}

#[test]
fn cache_stays_while_another_child_listens() {
    let mut s = store();
    let root = s.insert(None);
    let a = s.insert(Some(root));
    let b = s.insert(Some(root));
    let color = DepProp::new(COLOR);
    let on_a = color.value_source(a).handle(&mut s).handler_id;
    let on_b = color.value_source(b).handle(&mut s).handler_id;
    color.value_source(a).unhandle(&mut s, on_a);
    assert!(root.get(&s).prop_entry(COLOR).has_handlers());
    assert_eq!(color.set(&mut s, root, 2), vec![value(b, on_b, 2)]);
}

#[test]
fn revoked_handler_is_told_no_more() {
    let mut s = store();
    let a = s.insert(None);
    let color = DepProp::new(COLOR);
    let first = color.value_source(a).handle(&mut s).handler_id;
    let second = color.value_source(a).handle(&mut s).handler_id;
    color.value_source(a).unhandle(&mut s, first);
    assert_eq!(color.set(&mut s, a, 1), vec![value(a, second, 1)]);
}

#[test]
fn binding_takes_the_place_of_the_one_before() {
    let mut s = store();
    let a = s.insert(None);
    let color = DepProp::new(COLOR);
    let b1 = Binding { id: 1 };
    let b2 = Binding { id: 2 };
    let first = color.bind(&mut s, a, b1);
    assert_eq!(first.torn_down, None);
    assert_eq!(first.binding, b1);
    assert_eq!(first.target, color.target(a));
    assert_eq!(a.get(&s).prop_entry(COLOR).binding(), Some(b1));
    let second = color.bind(&mut s, a, b2);
    assert_eq!(second.torn_down, Some(b1));
    assert_eq!(second.binding, b2);
    assert_eq!(second.target, color.target(a));
    assert_eq!(a.get(&s).prop_entry(COLOR).binding(), Some(b2));
    assert_eq!(color.unbind(&mut s, a), Some(b2));
    assert_eq!(a.get(&s).prop_entry(COLOR).binding(), None);
    assert_eq!(color.unbind(&mut s, a), None);
}

#[test]
fn clear_binding_forgets_without_handing_out() {
    let mut s = store();
    let a = s.insert(None);
    let color = DepProp::new(COLOR);
    color.bind(&mut s, a, Binding { id: 1 });
    color.clear_binding(&mut s, a);
    assert_eq!(a.get(&s).prop_entry(COLOR).binding(), None);
}

#[test]
fn binding_of_one_property_leaves_the_other_alone() {
    let mut s = store();
    let a = s.insert(None);
    DepProp::new(COLOR).bind(&mut s, a, Binding { id: 1 });
    assert_eq!(a.get(&s).prop_entry(WIDTH).binding(), None);
    assert_eq!(DepProp::new(WIDTH).current_value(&s, a), 20);
}

#[test]
fn binding_pushes_through_the_target() {
    let mut s = store();
    let a = s.insert(None);
    let color = DepProp::new(COLOR);
    let on_a = color.value_source(a).handle(&mut s).handler_id;
    let target = color.bind(&mut s, a, Binding { id: 1 }).target;
    assert_eq!(target.obj(), a);
    assert_eq!(target.prop(), color);
    assert_eq!(target.execute(&mut s, 4), vec![value(a, on_a, 4)]);
    assert_eq!(target.execute(&mut s, 4), Vec::new());
    assert_eq!(color.current_value(&s, a), 4);
    target.clear(&mut s);
    assert_eq!(a.get(&s).prop_entry(COLOR).binding(), None);
    assert_eq!(color.current_value(&s, a), 4);
}

#[test]
fn setting_the_inherited_value_on_a_child_tells_nobody() {
    let mut s = store();
    let root = s.insert(None);
    let a = s.insert(Some(root));
    let color = DepProp::new(COLOR);
    color.set(&mut s, root, 3);
    color.value_source(a).handle(&mut s);
    assert_eq!(color.set(&mut s, a, 3), Vec::new());
    assert_eq!(color.set(&mut s, root, 4), Vec::new());
    assert_eq!(color.current_value(&s, a), 3);
    let notes = color.unset(&mut s, a);
    assert_eq!(notes.len(), 1);
    assert_eq!(notes[0].payload, Payload::Value(4));
}

#[test]
fn handlers_of_two_properties_are_apart() {
    let mut s = store();
    let a = s.insert(None);
    let on_color = DepProp::new(COLOR).value_source(a).handle(&mut s).handler_id;
    let on_width = DepProp::new(WIDTH).value_source(a).handle(&mut s).handler_id;
    assert_eq!(DepProp::new(COLOR).set(&mut s, a, 1), vec![value(a, on_color, 1)]);
    assert_eq!(DepProp::new(WIDTH).set(&mut s, a, 2), vec![value(a, on_width, 2)]);
}

#[test]
fn registrations_of_a_property_can_be_asked_for() {
    let mut s = store();
    let a = s.insert(None);
    let color = DepProp::new(COLOR);
    let v = color.value_source(a).handle(&mut s).handler_id;
    let c = color.change_source(a).handle(&mut s).handler_id;
    let entry = a.get(&s).prop_entry(COLOR);
    assert!(entry.has_value_handler(v));
    assert!(!entry.has_value_handler(c));
    assert!(entry.has_change_handler(c));
    assert!(!entry.has_change_handler(v));
    assert!(!a.get(&s).prop_entry(WIDTH).has_value_handler(v));
    color.value_source(a).unhandle(&mut s, v);
    assert!(!a.get(&s).prop_entry(COLOR).has_value_handler(v));
}
