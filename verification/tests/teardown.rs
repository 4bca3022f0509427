use dep_obj::BaseDepObjCore;
use dep_obj::Binding;
use dep_obj::DepEvent;
use dep_obj::DepEventEntry;
use dep_obj::DepProp;
use dep_obj::DepPropEntry;
use dep_obj::DepVec;
use dep_obj::DepVecEntry;
use dep_obj::Store;

fn store() -> Store<i32> {
    Store::new(vec![(10, true), (20, false)], vec![true], 1)
}

#[test]
fn harvest_hands_out_every_handler_in_slot_order() {
    let mut s = store();
    let root = s.insert(None);
    let a = s.insert(Some(root));
    let on_vec_inserted = DepVec::new(0).inserted_items_source(a).handle(&mut s).handler_id;
    let on_event = DepEvent::new(0).source(a).handle(&mut s).handler_id;
    let on_width_change = DepProp::new(1).change_source(a).handle(&mut s).handler_id;
    let on_color_change = DepProp::new(0).change_source(a).handle(&mut s).handler_id;
    let on_color_value = DepProp::new(0).value_source(a).handle(&mut s).handler_id;
    let on_vec_changed = DepVec::new(0).changed_source(a).handle(&mut s).handler_id;
    let on_vec_removed = DepVec::new(0).removed_items_source(a).handle(&mut s).handler_id;
    let on_root = DepProp::new(0).value_source(root).handle(&mut s).handler_id;
    let harvested = s.take_all_handlers(a);
    assert_eq!(
        harvested,
        vec![
            on_color_value,
            on_color_change,
            on_width_change,
            on_event,
            on_vec_changed,
            on_vec_removed,
            on_vec_inserted
        ]
    );
    assert!(!harvested.contains(&on_root));
    assert_eq!(s.take_all_handlers(a), Vec::<u64>::new());
}

#[test]
fn nothing_is_owed_to_an_owner_after_the_harvest() {
    let mut s = store();
    let root = s.insert(None);
    let a = s.insert(Some(root));
    let b = s.insert(Some(a));
    DepProp::new(0).value_source(a).handle(&mut s);
    DepProp::new(0).change_source(a).handle(&mut s);
    let on_b = DepProp::new(0).value_source(b).handle(&mut s).handler_id;
    DepEvent::new(0).source(a).handle(&mut s);
    DepVec::new(0).changed_source(a).handle(&mut s);
    s.take_all_handlers(a);
    let notes = DepProp::new(0).set(&mut s, root, 1);
    assert_eq!(notes.len(), 1);
    assert_eq!(notes[0].target, b);
    assert_eq!(notes[0].handler, on_b);
    assert_eq!(DepProp::new(0).set(&mut s, a, 2).len(), 1);
    assert_eq!(DepEvent::new(0).raise_raw(&s, a), (Vec::new(), true));
    assert_eq!(DepVec::new(0).push(&mut s, a, 1).calls, Vec::new());
}

#[test]
fn harvest_sets_the_caches_above_right() {
    let mut s = store();
    let root = s.insert(None);
    let a = s.insert(Some(root));
    let b = s.insert(Some(a));
    DepProp::new(0).value_source(b).handle(&mut s);
    assert!(root.get(&s).prop_entry(0).has_handlers());
    s.take_all_handlers(b);
    assert!(!a.get(&s).prop_entry(0).has_handlers());
    assert!(!root.get(&s).prop_entry(0).has_handlers());
    assert_eq!(DepProp::new(0).set(&mut s, root, 5), Vec::new());
}

#[test]
fn identifiers_are_not_given_out_twice() {
    let mut s = store();
    let a = s.insert(None);
    let first = DepProp::new(0).value_source(a).handle(&mut s).handler_id;
    s.take_all_handlers(a);
    let second = DepProp::new(0).value_source(a).handle(&mut s).handler_id;
    let third = DepEvent::new(0).source(a).handle(&mut s).handler_id;
    assert_eq!((first, second, third), (0, 1, 2));
}

#[test]
fn bindings_are_handed_out_added_first_then_those_of_properties() {
    let mut s = store();
    let a = s.insert(None);
    a.add_binding(&mut s, Binding { id: 5 });
    DepProp::new(1).bind(&mut s, a, Binding { id: 7 });
    a.add_binding(&mut s, Binding { id: 6 });
    DepProp::new(0).bind(&mut s, a, Binding { id: 8 });
    let bindings = s.take_added_bindings_and_collect_all(a);
    assert_eq!(
        bindings,
        vec![Binding { id: 5 }, Binding { id: 6 }, Binding { id: 8 }, Binding { id: 7 }]
    );
    let again = s.take_added_bindings_and_collect_all(a);
    assert_eq!(again, vec![Binding { id: 8 }, Binding { id: 7 }]);
}

#[test]
fn bindings_of_another_owner_stay() {
    let mut s = store();
    let a = s.insert(None);
    let b = s.insert(None);
    a.add_binding(&mut s, Binding { id: 1 });
    b.add_binding(&mut s, Binding { id: 2 });
    assert_eq!(s.take_added_bindings_and_collect_all(a), vec![Binding { id: 1 }]);
    assert_eq!(s.take_added_bindings_and_collect_all(b), vec![Binding { id: 2 }]);
}

#[test]
fn core_hands_out_bindings_once() {
    let mut core: BaseDepObjCore<i32> = BaseDepObjCore::new();
    assert!(core.style().is_none());
    assert_eq!(core.take_bindings(), Vec::new());
}

#[test]
fn property_entry_starts_without_anything() {
    let mut entry = DepPropEntry::new(3i32, true);
    assert_eq!(entry.default_value(), 3);
    assert!(entry.inherits());
    assert!(!entry.has_handlers());
    assert_eq!(entry.local(), None);
    assert_eq!(entry.style(), None);
    assert_eq!(entry.binding(), None);
    let mut handlers = vec![1u64];
    entry.take_all_handlers(&mut handlers);
    assert_eq!(handlers, vec![1]);
    assert!(!DepPropEntry::new(3i32, false).inherits());
}

#[test]
fn event_and_collection_entries_start_without_handlers() {
    let mut event = DepEventEntry::new(true);
    assert!(event.bubble());
    assert!(!DepEventEntry::new(false).bubble());
    let mut handlers = Vec::new();
    event.take_all_handlers(&mut handlers);
    let mut vec: DepVecEntry<i32> = DepVecEntry::new();
    assert_eq!(vec.items(), &Vec::<i32>::new());
    vec.take_all_handlers(&mut handlers);
    assert_eq!(handlers, Vec::<u64>::new());
}
