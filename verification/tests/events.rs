use dep_obj::DepEvent;
use dep_obj::DepEventArgs;
use dep_obj::Glob;
use dep_obj::Store;

struct Args {
    handled: bool,
}

impl DepEventArgs for Args {
    fn handled(&self) -> bool {
        self.handled
    }
}

const CLICK: usize = 0;
const FOCUS: usize = 1;

fn store() -> Store<i32> {
    Store::new(Vec::new(), vec![true, false], 0)
}

/// Raises `event` on `obj`; a handler in `handling` marks the event as
/// handled. Returns the handlers that were called, in order.
fn raise(s: &Store<i32>, event: DepEvent, obj: Glob, handling: &[u64]) -> Vec<(Glob, u64)> {
    let mut args = Args { handled: false };
    let mut called = Vec::new();
    let mut target = Some(obj);
    while let Some(at) = target {
        let (handlers, _) = event.raise_raw(s, at);
        for handler in handlers {
            called.push((at, handler));
            if handling.contains(&handler) {
                args.handled = true;
            }
        }
        target = event.raise(s, at, &args);
    }
    called
}

#[test]
fn descriptor_of_an_event_keeps_its_offset() {
    assert_eq!(DepEvent::new(4).offset(), 4);
}

#[test]
fn bubbling_event_goes_up_to_the_root() {
    let mut s = store();
    let top = s.insert(None);
    let middle = s.insert(Some(top));
    let bottom = s.insert(Some(middle));
    let click = DepEvent::new(CLICK);
    let on_top = click.source(top).handle(&mut s).handler_id;
    let on_middle = click.source(middle).handle(&mut s).handler_id;
    let on_bottom = click.source(bottom).handle(&mut s).handler_id;
    assert_eq!(
        raise(&s, click, bottom, &[]),
        vec![(bottom, on_bottom), (middle, on_middle), (top, on_top)]
    );
}

#[test]
fn handled_at_the_middle_does_not_reach_the_top() {
    let mut s = store();
    let top = s.insert(None);
    let middle = s.insert(Some(top));
    let bottom = s.insert(Some(middle));
    let click = DepEvent::new(CLICK);
    click.source(top).handle(&mut s);
    let on_middle = click.source(middle).handle(&mut s).handler_id;
    let on_bottom = click.source(bottom).handle(&mut s).handler_id;
    assert_eq!(
        raise(&s, click, bottom, &[on_middle]),
        vec![(bottom, on_bottom), (middle, on_middle)]
    );
}

#[test]
fn handled_at_the_bottom_stays_there_but_all_handlers_there_are_called() {
    let mut s = store();
    let top = s.insert(None);
    let bottom = s.insert(Some(top));
    let click = DepEvent::new(CLICK);
    click.source(top).handle(&mut s);
    let first = click.source(bottom).handle(&mut s).handler_id;
    let second = click.source(bottom).handle(&mut s).handler_id;
    assert_eq!(raise(&s, click, bottom, &[first]), vec![(bottom, first), (bottom, second)]);
}

#[test]
fn event_that_does_not_bubble_reaches_no_ancestor() {
    let mut s = store();
    let top = s.insert(None);
    let middle = s.insert(Some(top));
    let bottom = s.insert(Some(middle));
    let focus = DepEvent::new(FOCUS);
    focus.source(top).handle(&mut s);
    focus.source(middle).handle(&mut s);
    let on_bottom = focus.source(bottom).handle(&mut s).handler_id;
    assert_eq!(raise(&s, focus, bottom, &[]), vec![(bottom, on_bottom)]);
}

#[test]
fn raise_names_the_parent_or_nothing() {
    let mut s = store();
    let top = s.insert(None);
    let bottom = s.insert(Some(top));
    let click = DepEvent::new(CLICK);
    let focus = DepEvent::new(FOCUS);
    assert_eq!(click.raise(&s, bottom, &Args { handled: false }), Some(top));
    assert_eq!(click.raise(&s, bottom, &Args { handled: true }), None);
    assert_eq!(click.raise(&s, top, &Args { handled: false }), None);
    assert_eq!(focus.raise(&s, bottom, &Args { handled: false }), None);
}

#[test]
fn raise_asks_the_arguments_each_time() {
    let mut s = store();
    let top = s.insert(None);
    let bottom = s.insert(Some(top));
    let click = DepEvent::new(CLICK);
    let mut args = Args { handled: false };
    assert_eq!(click.raise(&s, bottom, &args), click.raise_next(&s, bottom, false));
    args.handled = true;
    assert_eq!(click.raise(&s, bottom, &args), click.raise_next(&s, bottom, true));
    args.handled = false;
    assert_eq!(click.raise(&s, bottom, &args), Some(top));
}

#[test]
fn raise_next_goes_by_the_flag() {
    let mut s = store();
    let top = s.insert(None);
    let bottom = s.insert(Some(top));
    let click = DepEvent::new(CLICK);
    let focus = DepEvent::new(FOCUS);
    assert_eq!(click.raise_next(&s, bottom, false), Some(top));
    assert_eq!(click.raise_next(&s, bottom, true), None);
    assert_eq!(click.raise_next(&s, top, false), None);
    assert_eq!(focus.raise_next(&s, bottom, false), None);
    assert_eq!(focus.raise_next(&s, bottom, true), None);
}

#[test]
fn raise_raw_gives_the_handlers_in_registration_order() {
    let mut s = store();
    let a = s.insert(None);
    let click = DepEvent::new(CLICK);
    let focus = DepEvent::new(FOCUS);
    let h1 = click.source(a).handle(&mut s).handler_id;
    let other = focus.source(a).handle(&mut s).handler_id;
    let h2 = click.source(a).handle(&mut s).handler_id;
    assert_eq!(click.raise_raw(&s, a), (vec![h1, h2], true));
    assert_eq!(focus.raise_raw(&s, a), (vec![other], false));
}

#[test]
fn subscribing_to_an_event_replays_nothing() {
    let mut s = store();
    let a = s.insert(None);
    let handled = DepEvent::new(CLICK).source(a).handle(&mut s);
    assert_eq!(handled.args, None);
    assert_eq!(handled.handler_id, 0);
}

#[test]
fn registrations_of_an_event_can_be_asked_for() {
    let mut s = store();
    let a = s.insert(None);
    let click = DepEvent::new(CLICK);
    let h = click.source(a).handle(&mut s).handler_id;
    assert!(a.get(&s).event_entry(CLICK).has_handler(h));
    assert!(!a.get(&s).event_entry(FOCUS).has_handler(h));
    click.source(a).unhandle(&mut s, h);
    assert!(!a.get(&s).event_entry(CLICK).has_handler(h));
}

#[test]
fn revoked_event_handler_is_called_no_more() {
    let mut s = store();
    let a = s.insert(None);
    let click = DepEvent::new(CLICK);
    let h1 = click.source(a).handle(&mut s).handler_id;
    let h2 = click.source(a).handle(&mut s).handler_id;
    click.source(a).unhandle(&mut s, h1);
    assert_eq!(raise(&s, click, a, &[]), vec![(a, h2)]);
}
