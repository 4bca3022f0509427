//! Handles of owners, and the calls owed to handlers of properties.

use crate::change::Change;
use vstd::prelude::*;

verus! {

/// The handle of an owner: its place in the store that holds it.
#[derive(Clone, Copy, Debug, PartialEq, Eq, Structural, Hash)]
pub struct Glob {
    pub id: usize,
}

/// What a handler of a property is called with.
#[derive(Clone, Copy, Debug, PartialEq, Eq, Hash)]
pub enum Payload<T> {
    /// For a handler of the value: the new effective value.
    Value(T),
    /// For a handler of changes: the old and the new effective value.
    Change(Change<T>),
}

/// One call that is owed to a handler of a property: which handler, on which
/// owner it is registered, and what it is called with.
#[derive(Clone, Copy, Debug, PartialEq, Eq, Hash)]
pub struct Notification<T> {
    pub target: Glob,
    pub handler: u64,
    pub payload: Payload<T>,
}

/// The calls owed to the value handlers `ids` of the owner `target` for the
/// new value `value`, in the order of registration.
pub open spec fn value_notes<T>(target: int, ids: Seq<u64>, value: T) -> Seq<Notification<T>> {
    Seq::new(
        ids.len(),
        |k: int|
            Notification {
                target: Glob { id: target as usize },
                handler: ids[k],
                payload: Payload::Value(value),
            },
    )
}

/// The calls owed to the change handlers `ids` of the owner `target` for
/// `change`, in the order of registration.
pub open spec fn change_notes<T>(target: int, ids: Seq<u64>, change: Change<T>) -> Seq<
    Notification<T>,
> {
    Seq::new(
        ids.len(),
        |k: int|
            Notification {
                target: Glob { id: target as usize },
                handler: ids[k],
                payload: Payload::Change(change),
            },
    )
}

} // verus!
