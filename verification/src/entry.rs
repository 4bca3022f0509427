//! The storage of one property, event or collection on one owner.

use crate::handlers::{distinct, HandlerList};
use vstd::prelude::*;

verus! {

/// The handle of a binding: a live source outside this library that pushes
/// values into a property and can be torn down.
#[derive(Clone, Copy, Debug, PartialEq, Eq, Structural, Hash)]
pub struct Binding {
    pub id: u64,
}

/// What a property slot of one owner holds.
pub struct PropState<T> {
    pub default: T,
    pub inherits: bool,
    pub style: Option<T>,
    pub local: Option<T>,
    pub value_handlers: Seq<u64>,
    pub change_handlers: Seq<u64>,
    pub binding: Option<Binding>,
}

impl<T> PropState<T> {
    pub open spec fn wf(self) -> bool {
        distinct(self.value_handlers) && distinct(self.change_handlers)
    }

    /// Whether a handler is registered on the slot itself.
    pub open spec fn has_own_handlers(self) -> bool {
        self.value_handlers.len() > 0 || self.change_handlers.len() > 0
    }

    /// Whether the slot overrides what it would inherit.
    pub open spec fn overrides(self) -> bool {
        self.local.is_some() || self.style.is_some()
    }

    /// The slot as it is made: no override, no handler, no binding.
    pub open spec fn fresh(default: T, inherits: bool) -> Self {
        PropState {
            default,
            inherits,
            style: None,
            local: None,
            value_handlers: Seq::empty(),
            change_handlers: Seq::empty(),
            binding: None,
        }
    }
}

/// What an event slot of one owner holds.
pub struct EventState {
    pub bubble: bool,
    pub handlers: Seq<u64>,
}

impl EventState {
    pub open spec fn wf(self) -> bool {
        distinct(self.handlers)
    }
}

/// What a collection slot of one owner holds.
pub struct VecState<T> {
    pub items: Seq<T>,
    pub changed_handlers: Seq<u64>,
    pub removed_items_handlers: Seq<u64>,
    pub inserted_items_handlers: Seq<u64>,
}

impl<T> VecState<T> {
    pub open spec fn wf(self) -> bool {
        &&& distinct(self.changed_handlers)
        &&& distinct(self.removed_items_handlers)
        &&& distinct(self.inserted_items_handlers)
    }
}

/// The storage of one property on one owner.
#[derive(Debug)]
pub struct DepPropEntry<T> {
    pub(crate) default: T,
    pub(crate) children_has_handlers: Option<bool>,
    pub(crate) style: Option<T>,
    pub(crate) local: Option<T>,
    pub(crate) value_handlers: HandlerList,
    pub(crate) change_handlers: HandlerList,
    pub(crate) binding: Option<Binding>,
}

impl<T> View for DepPropEntry<T> {
    type V = PropState<T>;

    open(crate) spec fn view(&self) -> PropState<T> {
        PropState {
            default: self.default,
            inherits: self.children_has_handlers.is_some(),
            style: self.style,
            local: self.local,
            value_handlers: self.value_handlers@,
            change_handlers: self.change_handlers@,
            binding: self.binding,
        }
    }
}

impl<T: Copy> DepPropEntry<T> {
    /// The cache of an inheriting property: whether some child of the owner
    /// has anybody to tell of a change.
    pub open(crate) spec fn cache(&self) -> Option<bool> {
        self.children_has_handlers
    }

    /// Whether the cache says that a handler is registered on this property
    /// somewhere below the owner.
    pub open spec fn cached(&self) -> bool {
        self.cache() == Some(true)
    }

    /// Whether a change of this property has anybody to tell, here or below.
    pub open spec fn interested(&self) -> bool {
        self.cached() || self@.has_own_handlers()
    }

    pub fn new(default: T, inherits: bool) -> (r: Self)
        ensures
            r@ == PropState::fresh(default, inherits),
            r@.wf(),
            !r.cached(),
            r.cache() == if inherits { Some(false) } else { None::<bool> },
    {
        DepPropEntry {
            default,
            children_has_handlers: if inherits { Some(false) } else { None },
            style: None,
            local: None,
            value_handlers: HandlerList::new(),
            change_handlers: HandlerList::new(),
            binding: None,
        }
    }

    pub fn inherits(&self) -> (r: bool)
        ensures
            r == self@.inherits,
    {
        self.children_has_handlers.is_some()
    }

    pub fn has_handlers(&self) -> (r: bool)
        ensures
            r == self.interested(),
    {
        let cached = match self.children_has_handlers {
            Some(b) => b,
            None => false,
        };
        cached || !self.value_handlers.is_empty() || !self.change_handlers.is_empty()
    }

    /// Moves every registration of the slot to the end of `handlers`: those
    /// for the value first, then those for changes.
    pub fn take_all_handlers(&mut self, handlers: &mut Vec<u64>)
        ensures
            final(self)@ == (PropState {
                value_handlers: Seq::<u64>::empty(),
                change_handlers: Seq::<u64>::empty(),
                ..old(self)@
            }),
            final(self).cached() == old(self).cached(),
            final(handlers)@ == old(handlers)@ + old(self)@.value_handlers + old(
                self,
            )@.change_handlers,
    {
        self.value_handlers.take_all(handlers);
        self.change_handlers.take_all(handlers);
    }

    /// Whether `id` is registered as a handler of the property's value.
    pub fn has_value_handler(&self, id: u64) -> (r: bool)
        ensures
            r == self@.value_handlers.contains(id),
    {
        self.value_handlers.contains(id)
    }

    /// Whether `id` is registered as a handler of the property's changes.
    pub fn has_change_handler(&self, id: u64) -> (r: bool)
        ensures
            r == self@.change_handlers.contains(id),
    {
        self.change_handlers.contains(id)
    }

    pub fn binding(&self) -> (r: Option<Binding>)
        ensures
            r == self@.binding,
    {
        self.binding
    }

    pub fn default_value(&self) -> (r: T)
        ensures
            r == self@.default,
    {
        self.default
    }

    pub fn local(&self) -> (r: Option<T>)
        ensures
            r == self@.local,
    {
        self.local
    }

    pub fn style(&self) -> (r: Option<T>)
        ensures
            r == self@.style,
    {
        self.style
    }
}

/// The storage of one event on one owner.
#[derive(Debug)]
pub struct DepEventEntry {
    pub(crate) bubble: bool,
    pub(crate) handlers: HandlerList,
}

impl View for DepEventEntry {
    type V = EventState;

    open(crate) spec fn view(&self) -> EventState {
        EventState { bubble: self.bubble, handlers: self.handlers@ }
    }
}

impl DepEventEntry {
    pub fn new(bubble: bool) -> (r: Self)
        ensures
            r@ == (EventState { bubble, handlers: Seq::<u64>::empty() }),
            r@.wf(),
    {
        DepEventEntry { bubble, handlers: HandlerList::new() }
    }

    pub fn bubble(&self) -> (r: bool)
        ensures
            r == self@.bubble,
    {
        self.bubble
    }

    /// Whether `id` is registered as a handler of the event.
    pub fn has_handler(&self, id: u64) -> (r: bool)
        ensures
            r == self@.handlers.contains(id),
    {
        self.handlers.contains(id)
    }

    /// Moves every registration of the slot to the end of `handlers`.
    pub fn take_all_handlers(&mut self, handlers: &mut Vec<u64>)
        ensures
            final(self)@ == (EventState { handlers: Seq::<u64>::empty(), ..old(self)@ }),
            final(handlers)@ == old(handlers)@ + old(self)@.handlers,
    {
        self.handlers.take_all(handlers);
    }
}

/// The storage of one collection on one owner.
#[derive(Debug)]
pub struct DepVecEntry<T> {
    pub(crate) items: Vec<T>,
    pub(crate) changed_handlers: HandlerList,
    pub(crate) removed_items_handlers: HandlerList,
    pub(crate) inserted_items_handlers: HandlerList,
}

impl<T> View for DepVecEntry<T> {
    type V = VecState<T>;

    open(crate) spec fn view(&self) -> VecState<T> {
        VecState {
            items: self.items@,
            changed_handlers: self.changed_handlers@,
            removed_items_handlers: self.removed_items_handlers@,
            inserted_items_handlers: self.inserted_items_handlers@,
        }
    }
}

impl<T: Copy> DepVecEntry<T> {
    pub fn new() -> (r: Self)
        ensures
            r@ == (VecState {
                items: Seq::<T>::empty(),
                changed_handlers: Seq::<u64>::empty(),
                removed_items_handlers: Seq::<u64>::empty(),
                inserted_items_handlers: Seq::<u64>::empty(),
            }),
            r@.wf(),
    {
        DepVecEntry {
            items: Vec::new(),
            changed_handlers: HandlerList::new(),
            removed_items_handlers: HandlerList::new(),
            inserted_items_handlers: HandlerList::new(),
        }
    }

    /// Whether `id` is registered as a handler of any change of the
    /// collection.
    pub fn has_changed_handler(&self, id: u64) -> (r: bool)
        ensures
            r == self@.changed_handlers.contains(id),
    {
        self.changed_handlers.contains(id)
    }

    /// Whether `id` is registered as a handler of removals.
    pub fn has_removed_items_handler(&self, id: u64) -> (r: bool)
        ensures
            r == self@.removed_items_handlers.contains(id),
    {
        self.removed_items_handlers.contains(id)
    }

    /// Whether `id` is registered as a handler of insertions.
    pub fn has_inserted_items_handler(&self, id: u64) -> (r: bool)
        ensures
            r == self@.inserted_items_handlers.contains(id),
    {
        self.inserted_items_handlers.contains(id)
    }

    /// The items of the collection, in order.
    pub fn items(&self) -> (r: &Vec<T>)
        ensures
            r@ == self@.items,
    {
        &self.items
    }

    /// Moves every registration of the slot to the end of `handlers`: those
    /// for any change first, then those for removed items, then those for
    /// inserted items.
    pub fn take_all_handlers(&mut self, handlers: &mut Vec<u64>)
        ensures
            final(self)@ == (VecState {
                items: old(self)@.items,
                changed_handlers: Seq::<u64>::empty(),
                removed_items_handlers: Seq::<u64>::empty(),
                inserted_items_handlers: Seq::<u64>::empty(),
            }),
            final(handlers)@ == old(handlers)@ + old(self)@.changed_handlers + old(
                self,
            )@.removed_items_handlers + old(self)@.inserted_items_handlers,
    {
        self.changed_handlers.take_all(handlers);
        self.removed_items_handlers.take_all(handlers);
        self.inserted_items_handlers.take_all(handlers);
    }
}

} // verus!
