use dep_obj::DepProp;
use dep_obj::Style;

fn offsets(style: &Style<i32>) -> Vec<(usize, i32)> {
    let mut out = Vec::new();
    let mut i = 0;
    while i < style.len() {
        let setter = style.setter(i);
        out.push((setter.prop_offset(), setter.value()));
        i += 1;
    }
    out
}

#[test]
fn new_style_is_empty() {
    let style: Style<i32> = Style::new();
    assert!(style.is_empty());
    assert_eq!(style.len(), 0);
    assert!(!style.contains_prop(DepProp::new(0)));
    assert_eq!(style.get(DepProp::new(0)), None);
}

#[test]
fn default_style_is_empty() {
    let style: Style<i32> = Style::default();
    assert!(style.is_empty());
}

#[test]
fn setters_are_sorted_by_offset() {
    let mut style = Style::new();
    assert!(!style.insert(DepProp::new(5), 50));
    assert!(!style.insert(DepProp::new(1), 10));
    assert!(!style.insert(DepProp::new(3), 30));
    assert!(!style.insert(DepProp::new(0), 0));
    assert!(!style.insert(DepProp::new(9), 90));
    assert_eq!(offsets(&style), vec![(0, 0), (1, 10), (3, 30), (5, 50), (9, 90)]);
    assert_eq!(style.len(), 5);
}

#[test]
fn insert_overwrites_the_setter_of_the_same_property() {
    let mut style = Style::new();
    assert!(!style.insert(DepProp::new(2), 1));
    assert!(!style.insert(DepProp::new(4), 2));
    assert!(style.insert(DepProp::new(2), 7));
    assert_eq!(offsets(&style), vec![(2, 7), (4, 2)]);
    assert_eq!(style.get(DepProp::new(2)), Some(7));
    assert_eq!(style.get(DepProp::new(4)), Some(2));
    assert_eq!(style.get(DepProp::new(3)), None);
}

#[test]
fn search_gives_the_place_or_the_place_to_insert_at() {
    let mut style = Style::new();
    style.insert(DepProp::new(2), 1);
    style.insert(DepProp::new(4), 2);
    style.insert(DepProp::new(6), 3);
    assert_eq!(style.search(2), Ok(0));
    assert_eq!(style.search(4), Ok(1));
    assert_eq!(style.search(6), Ok(2));
    assert_eq!(style.search(0), Err(0));
    assert_eq!(style.search(3), Err(1));
    assert_eq!(style.search(5), Err(2));
    assert_eq!(style.search(7), Err(3));
}

#[test]
fn contains_prop_tells_what_is_set() {
    let mut style = Style::new();
    style.insert(DepProp::new(2), 1);
    assert!(style.contains_prop(DepProp::new(2)));
    assert!(!style.contains_prop(DepProp::new(1)));
    assert!(!style.contains_prop(DepProp::new(3)));
}

#[test]
fn remove_takes_one_setter_out() {
    let mut style = Style::new();
    style.insert(DepProp::new(2), 1);
    style.insert(DepProp::new(4), 2);
    style.insert(DepProp::new(6), 3);
    assert!(style.remove(DepProp::new(4)));
    assert!(!style.remove(DepProp::new(4)));
    assert!(!style.remove(DepProp::new(5)));
    assert_eq!(offsets(&style), vec![(2, 1), (6, 3)]);
}

#[test]
fn clear_takes_every_setter_out() {
    let mut style = Style::new();
    style.insert(DepProp::new(2), 1);
    style.insert(DepProp::new(4), 2);
    style.clear();
    assert!(style.is_empty());
    assert_eq!(offsets(&style), Vec::<(usize, i32)>::new());
}

#[test]
fn clone_has_the_same_setters() {
    let mut style = Style::new();
    style.insert(DepProp::new(2), 1);
    style.insert(DepProp::new(4), 2);
    let copy = style.clone();
    style.insert(DepProp::new(3), 9);
    assert_eq!(offsets(&copy), vec![(2, 1), (4, 2)]);
    assert_eq!(offsets(&style), vec![(2, 1), (3, 9), (4, 2)]);
}

#[test]
fn capacity_is_at_least_the_length() {
    let mut style: Style<i32> = Style::with_capacity(16);
    assert!(style.capacity() >= 16);
    assert!(style.is_empty());
    style.insert(DepProp::new(1), 1);
    style.insert(DepProp::new(2), 2);
    assert!(style.capacity() >= style.len());
}

#[test]
fn reserving_and_shrinking_keep_the_setters() {
    let mut style = Style::new();
    style.insert(DepProp::new(1), 1);
    style.insert(DepProp::new(2), 2);
    style.reserve(100);
    assert!(style.capacity() >= 102);
    assert_eq!(offsets(&style), vec![(1, 1), (2, 2)]);
    style.shrink_to(10);
    assert!(style.capacity() >= 10);
    assert!(style.capacity() < 102);
    assert_eq!(offsets(&style), vec![(1, 1), (2, 2)]);
    style.shrink_to_fit();
    assert!(style.capacity() >= 2);
    assert!(style.capacity() < 10);
    assert_eq!(offsets(&style), vec![(1, 1), (2, 2)]);
    assert!(style.try_reserve(5).is_ok());
    assert!(style.capacity() >= 7);
    assert_eq!(offsets(&style), vec![(1, 1), (2, 2)]);
    assert!(style.try_reserve(usize::MAX).is_err());
    assert_eq!(offsets(&style), vec![(1, 1), (2, 2)]);
}

#[test]
fn asking_for_no_room_succeeds() {
    let mut style: Style<i32> = Style::new();
    assert!(style.try_reserve(0).is_ok());
    style.insert(DepProp::new(1), 1);
    style.shrink_to_fit();
    assert!(style.try_reserve(0).is_ok());
    assert_eq!(offsets(&style), vec![(1, 1)]);
}

#[test]
fn descriptor_keeps_its_offset() {
    assert_eq!(DepProp::new(3).offset(), 3);
    assert_eq!(DepProp::new(0).offset(), 0);
}
