//! Bubbling events.

use crate::cache::{lemma_one_owner_frame, lemma_props_untouched, relisted};
use crate::handlers::lemma_without_keeps;
use crate::model::StoreState;
use crate::notify::Glob;
use crate::source::HandledEventSource;
use crate::store::Store;
use vstd::prelude::*;

verus! {

/// The arguments of an event: what its handlers are called with. A handler
/// that has dealt with the event marks the arguments as handled, and the
/// event then goes no further up.
pub trait DepEventArgs {
    /// Whether a handler has marked the event as handled.
    fn handled(&self) -> bool;
}

/// Where an event goes after the handlers of `n` were called: to the parent
/// of `n`, unless the event does not bubble, is handled, or `n` has no
/// parent.
pub open spec fn next_target<T>(s: StoreState<T>, e: int, n: int, handled: bool) -> Option<Glob> {
    if !s.event(n, e).bubble || handled {
        None
    } else {
        match s.owners[n].parent {
            Some(q) => Some(Glob { id: q }),
            None => None,
        }
    }
}

/// A bubbling event: the descriptor of one event slot, the same on every
/// owner of a store.
#[derive(Clone, Copy, Debug, PartialEq, Eq, Structural, Hash)]
pub struct DepEvent {
    pub(crate) offset: usize,
}

impl DepEvent {
    /// The position of the event's slot among its owner's events.
    pub open(crate) spec fn spec_offset(self) -> usize {
        self.offset
    }

    /// The position of the event's slot, as a number.
    pub open spec fn index(self) -> int {
        self.spec_offset() as int
    }

    pub fn new(offset: usize) -> (r: Self)
        ensures
            r.spec_offset() == offset,
    {
        DepEvent { offset }
    }

    #[verifier::when_used_as_spec(spec_offset)]
    pub fn offset(self) -> (r: usize)
        ensures
            r == self.spec_offset(),
    {
        self.offset
    }

    /// The handlers of the event on `obj` as they stand now, in the order
    /// of registration, and whether the event bubbles. The caller calls the
    /// handlers in that order.
    pub fn raise_raw<T: Copy>(self, store: &Store<T>, obj: Glob) -> (r: (Vec<u64>, bool))
        requires
            store.wf(),
            store@.has_owner(obj.id as int),
            store@.has_event(self.index()),
        ensures
            r.0@ == store@.event(obj.id as int, self.index()).handlers,
            r.1 == store@.event(obj.id as int, self.index()).bubble,
    {
        proof {
            assert(store@.owner_ok(obj.id as int));
        }
        let entry = &store.owners[obj.id].events[self.offset];
        (entry.handlers.snapshot(), entry.bubble)
    }

    /// Where the event goes after the handlers of `obj` were called, given
    /// whether one of them has marked it as handled: to the parent of
    /// `obj`, unless the event does not bubble, is handled, or `obj` has no
    /// parent.
    pub fn raise_next<T: Copy>(self, store: &Store<T>, obj: Glob, handled: bool) -> (r: Option<
        Glob,
    >)
        requires
            store.wf(),
            store@.has_owner(obj.id as int),
            store@.has_event(self.index()),
        ensures
            r == next_target(store@, self.index(), obj.id as int, handled),
            match r {
                Some(q) => store@.has_owner(q.id as int) && q.id < obj.id,
                None => true,
            },
    {
        proof {
            assert(store@.owner_ok(obj.id as int));
        }
        let bubble = store.owners[obj.id].events[self.offset].bubble;
        if !bubble || handled {
            return None;
        }
        obj.parent(store)
    }

    /// Where the event goes after the handlers of `obj` were called with
    /// `args`: it asks `args` whether they are handled, and gives what
    /// `raise_next` gives for the answer. Raising an event is calling the
    /// handlers of its owner and then those of each owner that this names in
    /// turn, until it names none.
    pub fn raise<T: Copy, A: DepEventArgs>(self, store: &Store<T>, obj: Glob, args: &A) -> (r:
        Option<Glob>)
        requires
            store.wf(),
            store@.has_owner(obj.id as int),
            store@.has_event(self.index()),
        ensures
            exists|handled: bool| #[trigger]
                call_ensures(A::handled, (args,), handled) && r == next_target(
                    store@,
                    self.index(),
                    obj.id as int,
                    handled,
                ),
            match r {
                Some(q) => store@.has_owner(q.id as int) && q.id < obj.id,
                None => true,
            },
    {
        let handled = args.handled();
        self.raise_next(store, obj, handled)
    }

    /// Registers one more handler of the event on `obj` and returns the
    /// identifier it is registered under.
    pub(crate) fn register<T: Copy>(self, store: &mut Store<T>, obj: Glob) -> (id: u64)
        requires
            old(store).wf(),
            old(store)@.has_owner(obj.id as int),
            old(store)@.has_event(self.index()),
            old(store)@.next_handler < u64::MAX,
        ensures
            final(store).wf(),
            id == old(store)@.next_handler,
            final(store)@ == old(store)@.with_event_handler(obj.id as int, self.index()),
    {
        let ghost before = *store;
        let ghost s = store@;
        let ghost n = obj.id as int;
        let ghost e = self.index();
        proof {
            assert(s.owner_ok(n));
            assert(s.event_ok(n, e));
        }
        let id = store.next_handler;
        store.next_handler = id + 1;
        store.owners[obj.id].events[self.offset].handlers.insert(id);
        proof {
            let t = s.with_event_handler(n, e);
            assert(store@.owners[n].vecs =~= t.owners[n].vecs);
            assert(store@.owners[n].props =~= t.owners[n].props);
            assert(store@.owners[n].events =~= t.owners[n].events);
            assert(store@.owners[n] == t.owners[n]);
            assert(store@.owners =~= t.owners);
            assert(store@ == t);
            assert(store.caches() =~~= before.caches());
            lemma_event_relisted(s, t, before.caches(), n, e);
        }
        id
    }

    /// Revokes the handler `id` of the event on `obj`.
    pub(crate) fn revoke<T: Copy>(self, store: &mut Store<T>, obj: Glob, id: u64)
        requires
            old(store).wf(),
            old(store)@.has_owner(obj.id as int),
            old(store)@.has_event(self.index()),
            old(store)@.event(obj.id as int, self.index()).handlers.contains(id),
        ensures
            final(store).wf(),
            final(store)@ == old(store)@.without_event_handler(obj.id as int, self.index(), id),
    {
        let ghost before = *store;
        let ghost s = store@;
        let ghost n = obj.id as int;
        let ghost e = self.index();
        proof {
            assert(s.owner_ok(n));
            assert(s.event_ok(n, e));
            lemma_without_keeps(s.event(n, e).handlers, id);
        }
        store.owners[obj.id].events[self.offset].handlers.remove(id);
        proof {
            let t = s.without_event_handler(n, e, id);
            assert(store@.owners[n].vecs =~= t.owners[n].vecs);
            assert(store@.owners[n].props =~= t.owners[n].props);
            assert(store@.owners[n].events =~= t.owners[n].events);
            assert(store@.owners[n] == t.owners[n]);
            assert(store@.owners =~= t.owners);
            assert(store@ == t);
            assert(store.caches() =~~= before.caches());
            lemma_event_relisted(s, t, before.caches(), n, e);
        }
    }

    /// This event on `obj`, as something to subscribe to.
    pub fn source(self, obj: Glob) -> (r: DepEventSource)
        ensures
            r.owner() == obj.id,
            r.slot() == self.index(),
    {
        DepEventSource { obj, event: self }
    }
}

/// An event on one owner, as something to subscribe to.
#[derive(Clone, Copy, Debug)]
pub struct DepEventSource {
    pub(crate) obj: Glob,
    pub(crate) event: DepEvent,
}

impl DepEventSource {
    pub open(crate) spec fn owner(&self) -> int {
        self.obj.id as int
    }

    pub open(crate) spec fn slot(&self) -> int {
        self.event.index()
    }

    /// Registers a handler of the event. The handler is never called at
    /// once.
    pub fn handle<T: Copy>(&self, store: &mut Store<T>) -> (r: HandledEventSource<()>)
        requires
            old(store).wf(),
            old(store)@.has_owner(self.owner()),
            old(store)@.has_event(self.slot()),
            old(store)@.next_handler < u64::MAX,
        ensures
            final(store).wf(),
            final(store)@ == old(store)@.with_event_handler(self.owner(), self.slot()),
            r.handler_id == old(store)@.next_handler,
            r.args.is_none(),
    {
        let handler_id = self.event.register(store, self.obj);
        HandledEventSource { handler_id, args: None }
    }

    /// Revokes the handler registered under `handler_id`.
    pub fn unhandle<T: Copy>(&self, store: &mut Store<T>, handler_id: u64)
        requires
            old(store).wf(),
            old(store)@.has_owner(self.owner()),
            old(store)@.has_event(self.slot()),
            old(store)@.event(self.owner(), self.slot()).handlers.contains(handler_id),
        ensures
            final(store).wf(),
            final(store)@ == old(store)@.without_event_handler(
                self.owner(),
                self.slot(),
                handler_id,
            ),
    {
        self.event.revoke(store, self.obj, handler_id);
    }
}

/// A sound store with right caches stays so when the registrations of one
/// event slot are replaced by sound ones and the next identifier does not
/// fall.
pub proof fn lemma_event_relisted<T>(
    s: StoreState<T>,
    t: StoreState<T>,
    cs: Seq<Seq<Option<bool>>>,
    n: int,
    e: int,
)
    requires
        s.wf(),
        s.caches_ok(cs),
        s.has_owner(n),
        s.has_event(e),
        s.next_handler <= t.next_handler,
        t == (StoreState { next_handler: t.next_handler, ..s.with_event(n, e, t.event(n, e)) }),
        t.event(n, e).bubble == s.event(n, e).bubble,
        relisted(s.event(n, e).handlers, t.event(n, e).handlers, t.next_handler),
    ensures
        t.wf(),
        t.caches_ok(cs),
{
    assert(s.owner_ok(n));
    lemma_one_owner_frame(s, t, n);
    lemma_props_untouched(s, t, cs);
}

} // verus!
