use dep_obj::DepVec;
use dep_obj::Glob;
use dep_obj::Items;
use dep_obj::Store;
use dep_obj::VecEvent;
use dep_obj::VecNotification;

const LINES: usize = 0;
const OTHER: usize = 1;

fn store() -> Store<i32> {
    Store::new(Vec::new(), Vec::new(), 2)
}

fn items(s: &Store<i32>, obj: Glob, vec: usize) -> Vec<i32> {
    obj.get(s).vec_entry(vec).items().clone()
}

fn call(handler: u64, event: VecEvent) -> VecNotification {
    VecNotification { handler, event }
}

struct Watched {
    s: Store<i32>,
    obj: Glob,
    changed: u64,
    inserted: u64,
    removed: u64,
}

fn watched(start: &[i32]) -> Watched {
    let mut s = store();
    let obj = s.insert(None);
    let lines = DepVec::new(LINES);
    lines.extend_from_slice(&mut s, obj, start);
    let removed = lines.removed_items_source(obj).handle(&mut s).handler_id;
    let changed = lines.changed_source(obj).handle(&mut s).handler_id;
    let inserted = lines.inserted_items_source(obj).handle(&mut s).handler_id;
    Watched { s, obj, changed, inserted, removed }
}

#[test]
fn descriptor_of_a_collection_keeps_its_offset() {
    assert_eq!(DepVec::new(2).offset(), 2);
}

#[test]
fn push_tells_inserted_then_changed() {
    let mut w = watched(&[1, 2]);
    let d = DepVec::new(LINES).push(&mut w.s, w.obj, 9);
    assert_eq!(d.items, Items::new(vec![9]));
    assert_eq!(
        d.calls,
        vec![call(w.inserted, VecEvent::Inserted), call(w.changed, VecEvent::Changed)]
    );
    assert_eq!(items(&w.s, w.obj, LINES), vec![1, 2, 9]);
}

#[test]
fn remove_tells_removed_then_changed() {
    let mut w = watched(&[1, 2]);
    let d = DepVec::new(LINES).remove(&mut w.s, w.obj, 0);
    assert_eq!(d.items, Items::new(vec![1]));
    assert_eq!(d.calls, vec![call(w.removed, VecEvent::Removed), call(w.changed, VecEvent::Changed)]);
    assert_eq!(items(&w.s, w.obj, LINES), vec![2]);
}

#[test]
fn refresh_tells_all_removed_then_all_inserted() {
    let mut w = watched(&[1, 2]);
    let lines = DepVec::new(LINES);
    let first = lines.refresh(&mut w.s, w.obj);
    assert_eq!(first.items, Items::new(vec![1, 2]));
    assert_eq!(
        first.calls,
        vec![call(w.removed, VecEvent::Removed), call(w.changed, VecEvent::Changed)]
    );
    assert_eq!(items(&w.s, w.obj, LINES), Vec::<i32>::new());
    let second = lines.reinsert(&mut w.s, w.obj, first.items.into_items());
    assert_eq!(second.items, Items::new(vec![1, 2]));
    assert_eq!(
        second.calls,
        vec![call(w.inserted, VecEvent::Inserted), call(w.changed, VecEvent::Changed)]
    );
    assert_eq!(items(&w.s, w.obj, LINES), vec![1, 2]);
}

#[test]
fn refresh_of_an_empty_collection_still_tells() {
    let mut w = watched(&[]);
    let lines = DepVec::new(LINES);
    let first = lines.refresh(&mut w.s, w.obj);
    assert_eq!(first.items, Items::new(Vec::new()));
    assert_eq!(first.calls.len(), 2);
    let second = lines.reinsert(&mut w.s, w.obj, first.items.into_items());
    assert_eq!(second.items, Items::new(Vec::new()));
    assert_eq!(second.calls.len(), 2);
    assert_eq!(items(&w.s, w.obj, LINES), Vec::<i32>::new());
}

#[test]
fn reinsert_goes_by_the_handlers_as_they_stand_then() {
    let mut w = watched(&[1, 2]);
    let lines = DepVec::new(LINES);
    let first = lines.refresh(&mut w.s, w.obj);
    lines.inserted_items_source(w.obj).unhandle(&mut w.s, w.inserted);
    let late = lines.inserted_items_source(w.obj).handle(&mut w.s);
    assert_eq!(late.args, None);
    let second = lines.reinsert(&mut w.s, w.obj, first.items.into_items());
    assert_eq!(
        second.calls,
        vec![call(late.handler_id, VecEvent::Inserted), call(w.changed, VecEvent::Changed)]
    );
}

#[test]
fn reinsert_takes_the_place_of_what_came_in_between() {
    let mut w = watched(&[1, 2]);
    let lines = DepVec::new(LINES);
    let first = lines.refresh(&mut w.s, w.obj);
    lines.push(&mut w.s, w.obj, 9);
    assert_eq!(items(&w.s, w.obj, LINES), vec![9]);
    lines.reinsert(&mut w.s, w.obj, first.items.into_items());
    assert_eq!(items(&w.s, w.obj, LINES), vec![1, 2]);
}

#[test]
fn registrations_of_a_collection_can_be_asked_for() {
    let w = watched(&[1]);
    let entry = w.obj.get(&w.s).vec_entry(LINES);
    assert!(entry.has_changed_handler(w.changed));
    assert!(!entry.has_changed_handler(w.inserted));
    assert!(entry.has_inserted_items_handler(w.inserted));
    assert!(!entry.has_inserted_items_handler(w.removed));
    assert!(entry.has_removed_items_handler(w.removed));
    assert!(!entry.has_removed_items_handler(w.changed));
    assert!(!w.obj.get(&w.s).vec_entry(OTHER).has_changed_handler(w.changed));
}

#[test]
fn insert_puts_the_item_at_its_place() {
    let mut w = watched(&[1, 2]);
    let d = DepVec::new(LINES).insert(&mut w.s, w.obj, 1, 7);
    assert_eq!(d.items, Items::new(vec![7]));
    assert_eq!(
        d.calls,
        vec![call(w.inserted, VecEvent::Inserted), call(w.changed, VecEvent::Changed)]
    );
    assert_eq!(items(&w.s, w.obj, LINES), vec![1, 7, 2]);
    DepVec::new(LINES).insert(&mut w.s, w.obj, 0, 5);
    DepVec::new(LINES).insert(&mut w.s, w.obj, 4, 6);
    assert_eq!(items(&w.s, w.obj, LINES), vec![5, 1, 7, 2, 6]);
}

#[test]
fn extend_tells_all_new_items_at_once() {
    let mut w = watched(&[1]);
    let d = DepVec::new(LINES).extend_from_slice(&mut w.s, w.obj, &[4, 5, 6]);
    assert_eq!(d.items, Items::new(vec![4, 5, 6]));
    assert_eq!(
        d.calls,
        vec![call(w.inserted, VecEvent::Inserted), call(w.changed, VecEvent::Changed)]
    );
    assert_eq!(items(&w.s, w.obj, LINES), vec![1, 4, 5, 6]);
}

#[test]
fn extend_by_nothing_still_tells() {
    let mut w = watched(&[1]);
    let d = DepVec::new(LINES).extend_from_slice(&mut w.s, w.obj, &[]);
    assert_eq!(d.items, Items::new(Vec::new()));
    assert_eq!(d.calls.len(), 2);
    assert_eq!(items(&w.s, w.obj, LINES), vec![1]);
}

#[test]
fn clear_tells_all_items_removed() {
    let mut w = watched(&[1, 2, 3]);
    let d = DepVec::new(LINES).clear(&mut w.s, w.obj);
    assert_eq!(d.items, Items::new(vec![1, 2, 3]));
    assert_eq!(d.calls, vec![call(w.removed, VecEvent::Removed), call(w.changed, VecEvent::Changed)]);
    assert_eq!(items(&w.s, w.obj, LINES), Vec::<i32>::new());
}

#[test]
fn handlers_of_one_kind_are_called_in_registration_order() {
    let mut s = store();
    let obj = s.insert(None);
    let lines = DepVec::new(LINES);
    let c1 = lines.changed_source(obj).handle(&mut s).handler_id;
    let i1 = lines.inserted_items_source(obj).handle(&mut s).handler_id;
    let c2 = lines.changed_source(obj).handle(&mut s).handler_id;
    let i2 = lines.inserted_items_source(obj).handle(&mut s).handler_id;
    let d = lines.push(&mut s, obj, 1);
    assert_eq!(
        d.calls,
        vec![
            call(i1, VecEvent::Inserted),
            call(i2, VecEvent::Inserted),
            call(c1, VecEvent::Changed),
            call(c2, VecEvent::Changed)
        ]
    );
}

#[test]
fn collections_of_one_owner_are_apart() {
    let mut w = watched(&[1]);
    let d = DepVec::new(OTHER).push(&mut w.s, w.obj, 3);
    assert_eq!(d.calls, Vec::new());
    assert_eq!(items(&w.s, w.obj, OTHER), vec![3]);
    assert_eq!(items(&w.s, w.obj, LINES), vec![1]);
}

#[test]
fn subscribing_to_insertions_replays_the_items() {
    let mut s = store();
    let obj = s.insert(None);
    let lines = DepVec::new(LINES);
    let empty = lines.inserted_items_source(obj).handle(&mut s);
    assert_eq!(empty.args, None);
    lines.extend_from_slice(&mut s, obj, &[1, 2]);
    let full = lines.inserted_items_source(obj).handle(&mut s);
    assert_eq!(full.args, Some(Items::new(vec![1, 2])));
}

#[test]
fn subscribing_to_removals_replays_nothing() {
    let mut s = store();
    let obj = s.insert(None);
    let lines = DepVec::new(LINES);
    lines.extend_from_slice(&mut s, obj, &[1, 2]);
    let handled = lines.removed_items_source(obj).handle(&mut s);
    assert_eq!(handled.args, None);
}

#[test]
fn subscribing_to_changes_replays_once_if_not_empty() {
    let mut s = store();
    let obj = s.insert(None);
    let lines = DepVec::new(LINES);
    let empty = lines.changed_source(obj).handle(&mut s);
    assert_eq!(empty.args, None);
    lines.push(&mut s, obj, 1);
    let full = lines.changed_source(obj).handle(&mut s);
    assert_eq!(full.args, Some(()));
}

#[test]
fn revoked_collection_handlers_are_called_no_more() {
    let mut w = watched(&[1]);
    let lines = DepVec::new(LINES);
    lines.changed_source(w.obj).unhandle(&mut w.s, w.changed);
    let d = lines.push(&mut w.s, w.obj, 2);
    assert_eq!(d.calls, vec![call(w.inserted, VecEvent::Inserted)]);
    lines.inserted_items_source(w.obj).unhandle(&mut w.s, w.inserted);
    lines.removed_items_source(w.obj).unhandle(&mut w.s, w.removed);
    assert_eq!(lines.push(&mut w.s, w.obj, 3).calls, Vec::new());
    assert_eq!(lines.remove(&mut w.s, w.obj, 0).calls, Vec::new());
}
