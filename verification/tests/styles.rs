use dep_obj::Change;
use dep_obj::DepProp;
use dep_obj::Glob;
use dep_obj::Notification;
use dep_obj::Payload;
use dep_obj::Store;
use dep_obj::Style;

const COLOR: usize = 0;
const WIDTH: usize = 1;
const DEPTH: usize = 2;

fn store() -> Store<i32> {
    Store::new(vec![(10, true), (20, false), (30, false)], Vec::new(), 0)
}

fn style(setters: &[(usize, i32)]) -> Style<i32> {
    let mut s = Style::new();
    for (offset, value) in setters {
        s.insert(DepProp::new(*offset), *value);
    }
    s
}

fn setters(style: &Style<i32>) -> Vec<(usize, i32)> {
    let mut out = Vec::new();
    let mut i = 0;
    while i < style.len() {
        out.push((style.setter(i).prop_offset(), style.setter(i).value()));
        i += 1;
    }
    out
}

fn values(s: &Store<i32>, obj: Glob) -> Vec<i32> {
    vec![
        DepProp::new(COLOR).current_value(s, obj),
        DepProp::new(WIDTH).current_value(s, obj),
        DepProp::new(DEPTH).current_value(s, obj),
    ]
}

fn value(target: Glob, handler: u64, v: i32) -> Notification<i32> {
    Notification { target, handler, payload: Payload::Value(v) }
}

fn change(target: Glob, handler: u64, old: i32, new: i32) -> Notification<i32> {
    Notification { target, handler, payload: Payload::Change(Change::new_self(old, new)) }
}

#[test]
fn style_shows_where_there_is_no_local_value() {
    let mut s = store();
    let a = s.insert(None);
    DepProp::new(WIDTH).set(&mut s, a, 5);
    let (old, _) = a.apply_style(&mut s, Some(style(&[(COLOR, 1), (WIDTH, 2)])));
    assert!(old.is_none());
    assert_eq!(values(&s, a), vec![1, 5, 30]);
    assert_eq!(DepProp::new(WIDTH).non_local_value(&s, a), 2);
    assert_eq!(DepProp::new(WIDTH).unstyled_non_local_value(&s, a), 20);
    DepProp::new(WIDTH).unset(&mut s, a);
    assert_eq!(values(&s, a), vec![1, 2, 30]);
}

#[test]
fn style_comes_before_the_inherited_value() {
    let mut s = store();
    let root = s.insert(None);
    let a = s.insert(Some(root));
    let b = s.insert(Some(a));
    DepProp::new(COLOR).set(&mut s, root, 7);
    a.apply_style(&mut s, Some(style(&[(COLOR, 1)])));
    assert_eq!(DepProp::new(COLOR).current_value(&s, a), 1);
    assert_eq!(DepProp::new(COLOR).current_value(&s, b), 1);
    assert_eq!(DepProp::new(COLOR).unstyled_non_local_value(&s, a), 7);
}

#[test]
fn apply_style_returns_the_style_before() {
    let mut s = store();
    let a = s.insert(None);
    let (none, _) = a.apply_style(&mut s, Some(style(&[(COLOR, 1)])));
    assert!(none.is_none());
    let (first, _) = a.apply_style(&mut s, Some(style(&[(WIDTH, 2)])));
    assert_eq!(setters(&first.unwrap()), vec![(COLOR, 1)]);
    let (second, _) = a.apply_style(&mut s, None);
    assert_eq!(setters(&second.unwrap()), vec![(WIDTH, 2)]);
    let (third, _) = a.apply_style(&mut s, None);
    assert!(third.is_none());
    assert!(a.get(&s).core_base().style().is_none());
}

#[test]
fn two_styles_and_back_is_as_if_none_was_applied() {
    let mut s = store();
    let root = s.insert(None);
    let a = s.insert(Some(root));
    DepProp::new(COLOR).set(&mut s, root, 7);
    DepProp::new(DEPTH).set(&mut s, a, 9);
    let before = values(&s, a);
    assert_eq!(before, vec![7, 20, 9]);
    a.apply_style(&mut s, Some(style(&[(COLOR, 1), (WIDTH, 2)])));
    assert_eq!(values(&s, a), vec![1, 2, 9]);
    a.apply_style(&mut s, Some(style(&[(WIDTH, 3), (DEPTH, 4)])));
    assert_eq!(values(&s, a), vec![7, 3, 9]);
    a.apply_style(&mut s, None);
    assert_eq!(values(&s, a), before);
    assert_eq!(a.get(&s).prop_entry(COLOR).style(), None);
    assert_eq!(a.get(&s).prop_entry(WIDTH).style(), None);
    assert_eq!(a.get(&s).prop_entry(DEPTH).style(), None);
}

#[test]
fn removals_are_told_before_insertions() {
    let mut s = store();
    let a = s.insert(None);
    let on_color = DepProp::new(COLOR).value_source(a).handle(&mut s).handler_id;
    let on_width = DepProp::new(WIDTH).value_source(a).handle(&mut s).handler_id;
    let on_depth = DepProp::new(DEPTH).value_source(a).handle(&mut s).handler_id;
    let (_, notes) = a.apply_style(&mut s, Some(style(&[(WIDTH, 2), (DEPTH, 3)])));
    assert_eq!(notes, vec![value(a, on_width, 2), value(a, on_depth, 3)]);
    let (_, notes) = a.apply_style(&mut s, Some(style(&[(COLOR, 1), (WIDTH, 5)])));
    assert_eq!(notes, vec![value(a, on_depth, 30), value(a, on_color, 1), value(a, on_width, 5)]);
}

#[test]
fn setter_that_stays_the_same_tells_nobody() {
    let mut s = store();
    let a = s.insert(None);
    DepProp::new(COLOR).value_source(a).handle(&mut s);
    let on_width = DepProp::new(WIDTH).change_source(a).handle(&mut s).handler_id;
    a.apply_style(&mut s, Some(style(&[(COLOR, 1), (WIDTH, 2)])));
    let (_, notes) = a.apply_style(&mut s, Some(style(&[(COLOR, 1), (WIDTH, 3)])));
    assert_eq!(notes, vec![change(a, on_width, 2, 3)]);
    let (_, notes) = a.apply_style(&mut s, Some(style(&[(COLOR, 1), (WIDTH, 3)])));
    assert_eq!(notes, Vec::new());
}

#[test]
fn style_under_a_local_value_tells_nobody() {
    let mut s = store();
    let a = s.insert(None);
    DepProp::new(COLOR).set(&mut s, a, 8);
    DepProp::new(COLOR).value_source(a).handle(&mut s);
    let (_, notes) = a.apply_style(&mut s, Some(style(&[(COLOR, 1)])));
    assert_eq!(notes, Vec::new());
    assert_eq!(a.get(&s).prop_entry(COLOR).style(), Some(1));
    assert_eq!(DepProp::new(COLOR).current_value(&s, a), 8);
}

#[test]
fn style_that_sets_the_value_that_shows_tells_nobody() {
    let mut s = store();
    let a = s.insert(None);
    DepProp::new(WIDTH).value_source(a).handle(&mut s);
    let (_, notes) = a.apply_style(&mut s, Some(style(&[(WIDTH, 20)])));
    assert_eq!(notes, Vec::new());
    let (_, notes) = a.apply_style(&mut s, None);
    assert_eq!(notes, Vec::new());
}

#[test]
fn style_change_goes_down_to_inheriting_children() {
    let mut s = store();
    let root = s.insert(None);
    let a = s.insert(Some(root));
    let b = s.insert(Some(root));
    DepProp::new(COLOR).set(&mut s, b, 4);
    let on_a = DepProp::new(COLOR).change_source(a).handle(&mut s).handler_id;
    DepProp::new(COLOR).change_source(b).handle(&mut s);
    let (_, notes) = root.apply_style(&mut s, Some(style(&[(COLOR, 1)])));
    assert_eq!(notes, vec![change(a, on_a, 10, 1)]);
    let (_, notes) = root.apply_style(&mut s, None);
    assert_eq!(notes, vec![change(a, on_a, 1, 10)]);
}

#[test]
fn handlers_see_the_store_after_the_swap() {
    let mut s = store();
    let a = s.insert(None);
    DepProp::new(COLOR).value_source(a).handle(&mut s);
    DepProp::new(WIDTH).value_source(a).handle(&mut s);
    a.apply_style(&mut s, Some(style(&[(COLOR, 1)])));
    let (_, notes) = a.apply_style(&mut s, Some(style(&[(WIDTH, 2)])));
    assert_eq!(notes.len(), 2);
    assert_eq!(values(&s, a), vec![10, 2, 30]);
    assert_eq!(setters(a.get(&s).core_base().style().unwrap()), vec![(WIDTH, 2)]);
}

#[test]
fn un_apply_writes_the_slot_and_gives_the_change() {
    let mut s = store();
    let a = s.insert(None);
    let setter = style(&[(COLOR, 1)]).setter(0);
    assert_eq!(setter.un_apply(&mut s, a, false), Some(Change::new_self(10, 1)));
    assert_eq!(a.get(&s).prop_entry(COLOR).style(), Some(1));
    assert_eq!(setter.un_apply(&mut s, a, false), None);
    assert_eq!(a.get(&s).prop_entry(COLOR).style(), Some(1));
    assert_eq!(setter.un_apply(&mut s, a, true), Some(Change::new_self(1, 10)));
    assert_eq!(a.get(&s).prop_entry(COLOR).style(), None);
    assert_eq!(setter.un_apply(&mut s, a, true), None);
    assert_eq!(a.get(&s).prop_entry(COLOR).style(), None);
}

#[test]
fn un_apply_writes_the_slot_under_a_local_value() {
    let mut s = store();
    let a = s.insert(None);
    let width = DepProp::new(WIDTH);
    width.set(&mut s, a, 7);
    let setter = style(&[(WIDTH, 5)]).setter(0);
    assert_eq!(setter.un_apply(&mut s, a, false), None);
    assert_eq!(a.get(&s).prop_entry(WIDTH).style(), Some(5));
    assert_eq!(a.get(&s).prop_entry(WIDTH).local(), Some(7));
    assert_eq!(width.current_value(&s, a), 7);
    assert_eq!(width.non_local_value(&s, a), 5);
    assert_eq!(setter.un_apply(&mut s, a, true), None);
    assert_eq!(a.get(&s).prop_entry(WIDTH).style(), None);
    assert_eq!(a.get(&s).prop_entry(WIDTH).local(), Some(7));
}

#[test]
fn un_apply_of_the_value_that_shows_gives_no_change() {
    let mut s = store();
    let a = s.insert(None);
    let setter = style(&[(WIDTH, 20)]).setter(0);
    assert_eq!(setter.un_apply(&mut s, a, false), None);
    assert_eq!(a.get(&s).prop_entry(WIDTH).style(), Some(20));
}

#[test]
fn un_apply_goes_by_the_parents_value() {
    let mut s = store();
    let root = s.insert(None);
    let a = s.insert(Some(root));
    DepProp::new(COLOR).set(&mut s, root, 3);
    let setter = style(&[(COLOR, 1)]).setter(0);
    assert_eq!(setter.un_apply(&mut s, a, false), Some(Change::new_self(3, 1)));
    assert_eq!(setter.un_apply(&mut s, a, true), Some(Change::new_self(1, 3)));
}

#[test]
fn un_apply_leaves_other_slots_and_the_style_alone() {
    let mut s = store();
    let a = s.insert(None);
    a.apply_style(&mut s, Some(style(&[(COLOR, 1), (WIDTH, 2)])));
    let setter = style(&[(DEPTH, 4)]).setter(0);
    setter.un_apply(&mut s, a, false);
    assert_eq!(a.get(&s).prop_entry(COLOR).style(), Some(1));
    assert_eq!(a.get(&s).prop_entry(WIDTH).style(), Some(2));
    assert_eq!(a.get(&s).prop_entry(DEPTH).style(), Some(4));
    assert_eq!(setters(a.get(&s).core_base().style().unwrap()), vec![(COLOR, 1), (WIDTH, 2)]);
    setter.un_apply(&mut s, a, true);
    assert_eq!(a.get(&s).prop_entry(DEPTH).style(), None);
}

#[test]
fn unset_falls_back_to_the_style() {
    let mut s = store();
    let a = s.insert(None);
    let width = DepProp::new(WIDTH);
    let on_a = width.change_source(a).handle(&mut s).handler_id;
    a.apply_style(&mut s, Some(style(&[(WIDTH, 2)])));
    assert_eq!(width.set(&mut s, a, 5), vec![change(a, on_a, 2, 5)]);
    assert_eq!(width.unset(&mut s, a), vec![change(a, on_a, 5, 2)]);
    assert_eq!(width.set(&mut s, a, 2), Vec::new());
    assert_eq!(width.unset(&mut s, a), Vec::new());
}

#[test]
fn styled_child_is_passed_over_with_all_below_it() {
    let mut s = store();
    let root = s.insert(None);
    let a = s.insert(Some(root));
    let below_a = s.insert(Some(a));
    let color = DepProp::new(COLOR);
    a.apply_style(&mut s, Some(style(&[(COLOR, 1)])));
    color.value_source(a).handle(&mut s);
    color.value_source(below_a).handle(&mut s);
    assert_eq!(color.set(&mut s, root, 9), Vec::new());
    assert_eq!(color.current_value(&s, below_a), 1);
}
