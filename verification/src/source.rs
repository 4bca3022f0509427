//! Properties as something to subscribe to, and as the target of a binding.

use crate::change::{eq_is_identity, Change};
use crate::entry::Binding;
use crate::notify::{Glob, Notification};
use crate::prop::DepProp;
use crate::store::Store;
use vstd::prelude::*;

verus! {

/// What registering a handler of a property's value yields: the identifier
/// under which it is registered, by which it is revoked, and the effective
/// value at that moment.
#[derive(Clone, Copy, Debug, PartialEq, Eq)]
pub struct HandledValueSource<T> {
    pub handler_id: u64,
    pub value: T,
}

/// What registering a handler of events yields: the identifier under which
/// it is registered, by which it is revoked, and what the handler is to be
/// called with at once, if anything.
#[derive(Clone, Debug, PartialEq, Eq)]
pub struct HandledEventSource<A> {
    pub handler_id: u64,
    pub args: Option<A>,
}

/// The value of a property on one owner, as something to subscribe to.
#[derive(Clone, Copy, Debug)]
pub struct DepPropValueSource {
    pub(crate) obj: Glob,
    pub(crate) prop: DepProp,
}

impl DepPropValueSource {
    pub open(crate) spec fn owner(&self) -> int {
        self.obj.id as int
    }

    pub open(crate) spec fn slot(&self) -> int {
        self.prop.index()
    }

    /// Registers a handler of the property's value and returns the
    /// effective value with its identifier; the handler is not called.
    pub fn handle<T: Copy>(&self, store: &mut Store<T>) -> (r: HandledValueSource<T>)
        requires
            old(store).wf(),
            old(store)@.has_owner(self.owner()),
            old(store)@.has_prop(self.slot()),
            old(store)@.next_handler < u64::MAX,
        ensures
            final(store).wf(),
            final(store)@ == old(store)@.with_value_handler(self.owner(), self.slot()),
            r.handler_id == old(store)@.next_handler,
            r.value == old(store)@.current_value(self.slot(), self.owner()),
    {
        let value = self.prop.current_value(store, self.obj);
        let handler_id = self.prop.register(store, self.obj, false);
        HandledValueSource { handler_id, value }
    }

    /// Revokes the handler registered under `handler_id`.
    pub fn unhandle<T: Copy>(&self, store: &mut Store<T>, handler_id: u64)
        requires
            old(store).wf(),
            old(store)@.has_owner(self.owner()),
            old(store)@.has_prop(self.slot()),
            old(store)@.prop(self.owner(), self.slot()).value_handlers.contains(handler_id),
        ensures
            final(store).wf(),
            final(store)@ == old(store)@.without_value_handler(
                self.owner(),
                self.slot(),
                handler_id,
            ),
    {
        self.prop.revoke(store, self.obj, false, handler_id);
    }
}

/// The changes of a property on one owner, as something to subscribe to.
#[derive(Clone, Copy, Debug)]
pub struct DepPropChangeSource {
    pub(crate) obj: Glob,
    pub(crate) prop: DepProp,
}

impl DepPropChangeSource {
    pub open(crate) spec fn owner(&self) -> int {
        self.obj.id as int
    }

    pub open(crate) spec fn slot(&self) -> int {
        self.prop.index()
    }

    /// Registers a handler of the property's changes. Where the effective
    /// value is not the default, the handler is to be called at once with
    /// the change from the default to the effective value.
    pub fn handle<T: Copy + PartialEq>(&self, store: &mut Store<T>) -> (r: HandledEventSource<
        Change<T>,
    >)
        requires
            old(store).wf(),
            old(store)@.has_owner(self.owner()),
            old(store)@.has_prop(self.slot()),
            old(store)@.next_handler < u64::MAX,
            eq_is_identity::<T>(),
        ensures
            final(store).wf(),
            final(store)@ == old(store)@.with_change_handler(self.owner(), self.slot()),
            r.handler_id == old(store)@.next_handler,
            r.args == old(store)@.replayed_change(self.slot(), self.owner()),
    {
        proof {
            assert(store@.owner_ok(self.owner()));
        }
        let current = self.prop.current_value(store, self.obj);
        let default = store.owners[self.obj.id].props[self.prop.offset].default;
        let args = if current == default {
            None
        } else {
            Some(Change::new_self(default, current))
        };
        let handler_id = self.prop.register(store, self.obj, true);
        HandledEventSource { handler_id, args }
    }

    /// Revokes the handler registered under `handler_id`.
    pub fn unhandle<T: Copy>(&self, store: &mut Store<T>, handler_id: u64)
        requires
            old(store).wf(),
            old(store)@.has_owner(self.owner()),
            old(store)@.has_prop(self.slot()),
            old(store)@.prop(self.owner(), self.slot()).change_handlers.contains(handler_id),
        ensures
            final(store).wf(),
            final(store)@ == old(store)@.without_change_handler(
                self.owner(),
                self.slot(),
                handler_id,
            ),
    {
        self.prop.revoke(store, self.obj, true, handler_id);
    }
}

/// What attaching a binding to a property leaves to do outside the store.
#[derive(Clone, Copy, Debug, PartialEq, Eq)]
pub struct Bound {
    /// The binding that was attached before, which is to be torn down.
    pub torn_down: Option<Binding>,
    /// The binding that is attached now.
    pub binding: Binding,
    /// What is to be made the target of the binding that is attached now.
    pub target: DepPropSet,
}

/// A property on one owner as the target of a binding: the binding pushes
/// its values into the property's local value, and says so when it is torn
/// down.
#[derive(Clone, Copy, Debug, PartialEq, Eq)]
pub struct DepPropSet {
    pub(crate) obj: Glob,
    pub(crate) prop: DepProp,
}

impl DepPropSet {
    pub open(crate) spec fn owner(&self) -> int {
        self.obj.id as int
    }

    pub open(crate) spec fn slot(&self) -> int {
        self.prop.index()
    }

    /// The owner whose property is the target.
    pub fn obj(&self) -> (r: Glob)
        ensures
            r.id == self.owner(),
    {
        self.obj
    }

    /// The property that is the target.
    pub fn prop(&self) -> (r: DepProp)
        ensures
            r.index() == self.slot(),
    {
        self.prop
    }

    /// Takes a value from the binding: gives the property the local value
    /// `value`, and returns the calls that this owes to handlers.
    pub fn execute<T: Copy + PartialEq>(&self, store: &mut Store<T>, value: T) -> (r: Vec<
        Notification<T>,
    >)
        requires
            old(store).wf(),
            old(store)@.has_owner(self.owner()),
            old(store)@.has_prop(self.slot()),
            eq_is_identity::<T>(),
        ensures
            final(store).wf(),
            final(store)@ == old(store)@.with_local(self.owner(), self.slot(), Some(value)),
            r@ == final(store)@.notes_if(
                self.slot(),
                self.owner(),
                old(store)@.local_change(self.slot(), self.owner(), Some(value)),
            ),
    {
        self.prop.set(store, self.obj, value)
    }

    /// Hears that the binding is torn down: the property forgets it.
    pub fn clear<T: Copy>(&self, store: &mut Store<T>)
        requires
            old(store).wf(),
            old(store)@.has_owner(self.owner()),
            old(store)@.has_prop(self.slot()),
        ensures
            final(store).wf(),
            final(store)@ == old(store)@.with_binding(self.owner(), self.slot(), None),
    {
        self.prop.clear_binding(store, self.obj);
    }
}

impl DepProp {
    /// This property on `obj`, as the target of a binding.
    pub fn target(self, obj: Glob) -> (r: DepPropSet)
        ensures
            r.owner() == obj.id,
            r.slot() == self.index(),
    {
        DepPropSet { obj, prop: self }
    }

    /// The value of this property on `obj`, as something to subscribe to.
    pub fn value_source(self, obj: Glob) -> (r: DepPropValueSource)
        ensures
            r.owner() == obj.id,
            r.slot() == self.index(),
    {
        DepPropValueSource { obj, prop: self }
    }

    /// The changes of this property on `obj`, as something to subscribe to.
    pub fn change_source(self, obj: Glob) -> (r: DepPropChangeSource)
        ensures
            r.owner() == obj.id,
            r.slot() == self.index(),
    {
        DepPropChangeSource { obj, prop: self }
    }
}

} // verus!
