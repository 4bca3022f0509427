//! Observable collections.

use crate::cache::{lemma_one_owner_frame, lemma_props_untouched, relisted};
use crate::change::Items;
use crate::entry::VecState;
use crate::handlers::{lemma_without_keeps, without};
use crate::model::StoreState;
use crate::notify::Glob;
use crate::source::HandledEventSource;
use crate::store::Store;
use vstd::prelude::*;

verus! {

/// What a handler of a collection is registered for.
#[derive(Clone, Copy, Debug, PartialEq, Eq, Structural, Hash)]
pub enum VecEvent {
    /// Items were inserted; the handler is called with them.
    Inserted,
    /// Items were removed; the handler is called with them.
    Removed,
    /// The collection changed; the handler is called with nothing.
    Changed,
}

/// One call that is owed to a handler of a collection.
#[derive(Clone, Copy, Debug, PartialEq, Eq, Structural, Hash)]
pub struct VecNotification {
    pub handler: u64,
    pub event: VecEvent,
}

/// What one modification of a collection owes to handlers: the items that
/// it inserted or removed, and the calls in the order in which they are to
/// be made.
#[derive(Clone, Debug, PartialEq, Eq)]
pub struct VecDispatch<T> {
    pub items: Items<T>,
    pub calls: Vec<VecNotification>,
}

/// The calls to `ids`, each for `event`, in the order of registration.
pub open spec fn calls_for(ids: Seq<u64>, event: VecEvent) -> Seq<VecNotification> {
    Seq::new(ids.len(), |k: int| VecNotification { handler: ids[k], event })
}

/// The calls that a modification of the collection `e` owes: first to the
/// handlers of the items, removed or inserted, then to the handlers of any
/// change.
pub open spec fn vec_calls<T>(e: VecState<T>, remove: bool) -> Seq<VecNotification> {
    if remove {
        calls_for(e.removed_items_handlers, VecEvent::Removed) + calls_for(
            e.changed_handlers,
            VecEvent::Changed,
        )
    } else {
        calls_for(e.inserted_items_handlers, VecEvent::Inserted) + calls_for(
            e.changed_handlers,
            VecEvent::Changed,
        )
    }
}

/// The registrations of `e` for `event`.
pub open spec fn listed<T>(e: VecState<T>, event: VecEvent) -> Seq<u64> {
    match event {
        VecEvent::Inserted => e.inserted_items_handlers,
        VecEvent::Removed => e.removed_items_handlers,
        VecEvent::Changed => e.changed_handlers,
    }
}

/// The slot `e` with `ids` registered for `event`.
pub open spec fn relist<T>(e: VecState<T>, event: VecEvent, ids: Seq<u64>) -> VecState<T> {
    match event {
        VecEvent::Inserted => VecState { inserted_items_handlers: ids, ..e },
        VecEvent::Removed => VecState { removed_items_handlers: ids, ..e },
        VecEvent::Changed => VecState { changed_handlers: ids, ..e },
    }
}

/// The store after one more handler for `event` is registered on the
/// collection `v` of `n`, under the identifier that was next.
pub open spec fn with_vec_handler<T>(s: StoreState<T>, n: int, v: int, event: VecEvent) -> StoreState<
    T,
> {
    let e = s.vec(n, v);
    s.with_vec(n, v, relist(e, event, listed(e, event).push(s.next_handler))).with_next()
}

/// The store after the handler `id` for `event` on the collection `v` of `n`
/// is revoked.
pub open spec fn without_vec_handler<T>(
    s: StoreState<T>,
    n: int,
    v: int,
    event: VecEvent,
    id: u64,
) -> StoreState<T> {
    let e = s.vec(n, v);
    s.with_vec(n, v, relist(e, event, without(listed(e, event), id)))
}

/// A copy of `items`.
pub fn copy_items<T: Copy>(items: &[T]) -> (r: Vec<T>)
    ensures
        r@ == items@,
{
    let mut out: Vec<T> = Vec::new();
    let mut i: usize = 0;
    while i < items.len()
        invariant
            i <= items@.len(),
            out@ == items@.take(i as int),
        decreases items@.len() - i,
    {
        out.push(items[i]);
        proof {
            assert(items@.take(i + 1) =~= items@.take(i as int).push(items@[i as int]));
        }
        i += 1;
    }
    proof {
        assert(items@.take(items@.len() as int) =~= items@);
    }
    out
}

/// An observable collection: the descriptor of one collection slot, the
/// same on every owner of a store.
#[derive(Clone, Copy, Debug, PartialEq, Eq, Structural, Hash)]
pub struct DepVec {
    pub(crate) offset: usize,
}

impl DepVec {
    /// The position of the collection's slot among its owner's collections.
    pub open(crate) spec fn spec_offset(self) -> usize {
        self.offset
    }

    /// The position of the collection's slot, as a number.
    pub open spec fn index(self) -> int {
        self.spec_offset() as int
    }

    pub fn new(offset: usize) -> (r: Self)
        ensures
            r.spec_offset() == offset,
    {
        DepVec { offset }
    }

    #[verifier::when_used_as_spec(spec_offset)]
    pub fn offset(self) -> (r: usize)
        ensures
            r == self.spec_offset(),
    {
        self.offset
    }

    /// Adds to `out` a call for `event` to each of `ids`, in order.
    fn push_calls(ids: &Vec<u64>, event: VecEvent, out: &mut Vec<VecNotification>)
        ensures
            final(out)@ == old(out)@ + calls_for(ids@, event),
    {
        let ghost all = calls_for(ids@, event);
        let mut i: usize = 0;
        while i < ids.len()
            invariant
                i <= ids@.len(),
                all == calls_for(ids@, event),
                out@ == old(out)@ + all.take(i as int),
            decreases ids@.len() - i,
        {
            out.push(VecNotification { handler: ids[i], event });
            proof {
                assert(all.take(i + 1) =~= all.take(i as int).push(all[i as int]));
                assert(out@ =~= old(out)@ + all.take(i + 1));
            }
            i += 1;
        }
        proof {
            assert(all.take(all.len() as int) =~= all);
        }
    }

    /// The calls that a modification of the collection on `obj` owes, for
    /// the items `items` that it removed or inserted.
    pub fn dispatch<T: Copy>(self, store: &Store<T>, obj: Glob, remove: bool, items: Vec<T>) -> (r:
        VecDispatch<T>)
        requires
            store.wf(),
            store@.has_owner(obj.id as int),
            store@.has_vec(self.index()),
        ensures
            r.items@ == items@,
            r.calls@ == vec_calls(store@.vec(obj.id as int, self.index()), remove),
    {
        proof {
            assert(store@.owner_ok(obj.id as int));
        }
        let entry = &store.owners[obj.id].vecs[self.offset];
        let changed_handlers = entry.changed_handlers.snapshot();
        let items_handlers = if remove {
            entry.removed_items_handlers.snapshot()
        } else {
            entry.inserted_items_handlers.snapshot()
        };
        let mut calls: Vec<VecNotification> = Vec::new();
        Self::push_calls(
            &items_handlers,
            if remove {
                VecEvent::Removed
            } else {
                VecEvent::Inserted
            },
            &mut calls,
        );
        Self::push_calls(&changed_handlers, VecEvent::Changed, &mut calls);
        proof {
            assert(calls@ =~= vec_calls(store@.vec(obj.id as int, self.index()), remove));
        }
        VecDispatch { items: Items::new(items), calls }
    }

    /// The first step of a refresh, which makes observers start afresh
    /// without a change to what the collection holds in the end: takes
    /// every item out of the collection on `obj` and returns the calls that
    /// tell of their removal. The caller makes these calls, while the
    /// collection is empty, and then hands the items to `reinsert`.
    pub fn refresh<T: Copy>(self, store: &mut Store<T>, obj: Glob) -> (r: VecDispatch<T>)
        requires
            old(store).wf(),
            old(store)@.has_owner(obj.id as int),
            old(store)@.has_vec(self.index()),
        ensures
            final(store).wf(),
            final(store)@ == old(store)@.with_items(obj.id as int, self.index(), Seq::empty()),
            r.items@ == old(store)@.vec(obj.id as int, self.index()).items,
            r.calls@ == vec_calls(final(store)@.vec(obj.id as int, self.index()), true),
    {
        self.clear(store, obj)
    }

    /// The second step of a refresh: makes `items` the items of the
    /// collection on `obj`, in place of whatever it holds, and returns the
    /// calls that tell of their insertion, as the handlers stand now.
    pub fn reinsert<T: Copy>(self, store: &mut Store<T>, obj: Glob, items: Vec<T>) -> (r:
        VecDispatch<T>)
        requires
            old(store).wf(),
            old(store)@.has_owner(obj.id as int),
            old(store)@.has_vec(self.index()),
        ensures
            final(store).wf(),
            final(store)@ == old(store)@.with_items(obj.id as int, self.index(), items@),
            r.items@ == items@,
            r.calls@ == vec_calls(final(store)@.vec(obj.id as int, self.index()), false),
    {
        let ghost before = *store;
        proof {
            assert(store@.owner_ok(obj.id as int));
        }
        let mut copy = copy_items(items.as_slice());
        std::mem::swap(&mut copy, &mut store.owners[obj.id].vecs[self.offset].items);
        proof {
            lemma_items_replaced(before, *store, obj.id as int, self.index());
        }
        self.dispatch(store, obj, false, items)
    }

    /// Removes every item of the collection on `obj`.
    pub fn clear<T: Copy>(self, store: &mut Store<T>, obj: Glob) -> (r: VecDispatch<T>)
        requires
            old(store).wf(),
            old(store)@.has_owner(obj.id as int),
            old(store)@.has_vec(self.index()),
        ensures
            final(store).wf(),
            final(store)@ == old(store)@.with_items(obj.id as int, self.index(), Seq::empty()),
            r.items@ == old(store)@.vec(obj.id as int, self.index()).items,
            r.calls@ == vec_calls(final(store)@.vec(obj.id as int, self.index()), true),
    {
        let ghost before = *store;
        proof {
            assert(store@.owner_ok(obj.id as int));
        }
        let mut taken: Vec<T> = Vec::new();
        std::mem::swap(&mut taken, &mut store.owners[obj.id].vecs[self.offset].items);
        proof {
            lemma_items_replaced(before, *store, obj.id as int, self.index());
        }
        self.dispatch(store, obj, true, taken)
    }

    /// Puts `item` at the end of the collection on `obj`.
    pub fn push<T: Copy>(self, store: &mut Store<T>, obj: Glob, item: T) -> (r: VecDispatch<T>)
        requires
            old(store).wf(),
            old(store)@.has_owner(obj.id as int),
            old(store)@.has_vec(self.index()),
        ensures
            final(store).wf(),
            final(store)@ == old(store)@.with_items(
                obj.id as int,
                self.index(),
                old(store)@.vec(obj.id as int, self.index()).items.push(item),
            ),
            r.items@ == seq![item],
            r.calls@ == vec_calls(final(store)@.vec(obj.id as int, self.index()), false),
    {
        let ghost before = *store;
        proof {
            assert(store@.owner_ok(obj.id as int));
        }
        store.owners[obj.id].vecs[self.offset].items.push(item);
        proof {
            lemma_items_replaced(before, *store, obj.id as int, self.index());
        }
        let mut affected: Vec<T> = Vec::new();
        affected.push(item);
        proof {
            assert(affected@ =~= seq![item]);
        }
        self.dispatch(store, obj, false, affected)
    }

    /// Puts `item` at the position `index` of the collection on `obj`; the
    /// items from there on move up by one.
    pub fn insert<T: Copy>(self, store: &mut Store<T>, obj: Glob, index: usize, item: T) -> (r:
        VecDispatch<T>)
        requires
            old(store).wf(),
            old(store)@.has_owner(obj.id as int),
            old(store)@.has_vec(self.index()),
            index <= old(store)@.vec(obj.id as int, self.index()).items.len(),
        ensures
            final(store).wf(),
            final(store)@ == old(store)@.with_items(
                obj.id as int,
                self.index(),
                old(store)@.vec(obj.id as int, self.index()).items.insert(index as int, item),
            ),
            r.items@ == seq![item],
            r.calls@ == vec_calls(final(store)@.vec(obj.id as int, self.index()), false),
    {
        let ghost before = *store;
        proof {
            assert(store@.owner_ok(obj.id as int));
        }
        store.owners[obj.id].vecs[self.offset].items.insert(index, item);
        proof {
            lemma_items_replaced(before, *store, obj.id as int, self.index());
        }
        let mut affected: Vec<T> = Vec::new();
        affected.push(item);
        proof {
            assert(affected@ =~= seq![item]);
        }
        self.dispatch(store, obj, false, affected)
    }

    /// Takes the item at the position `index` out of the collection on
    /// `obj`; the items behind it move down by one.
    pub fn remove<T: Copy>(self, store: &mut Store<T>, obj: Glob, index: usize) -> (r: VecDispatch<
        T,
    >)
        requires
            old(store).wf(),
            old(store)@.has_owner(obj.id as int),
            old(store)@.has_vec(self.index()),
            index < old(store)@.vec(obj.id as int, self.index()).items.len(),
        ensures
            final(store).wf(),
            final(store)@ == old(store)@.with_items(
                obj.id as int,
                self.index(),
                old(store)@.vec(obj.id as int, self.index()).items.remove(index as int),
            ),
            r.items@ == seq![old(store)@.vec(obj.id as int, self.index()).items[index as int]],
            r.calls@ == vec_calls(final(store)@.vec(obj.id as int, self.index()), true),
    {
        let ghost before = *store;
        proof {
            assert(store@.owner_ok(obj.id as int));
        }
        let item = store.owners[obj.id].vecs[self.offset].items.remove(index);
        proof {
            lemma_items_replaced(before, *store, obj.id as int, self.index());
        }
        let mut affected: Vec<T> = Vec::new();
        affected.push(item);
        proof {
            assert(affected@ =~= seq![item]);
        }
        self.dispatch(store, obj, true, affected)
    }

    /// Puts the items of `other` at the end of the collection on `obj`, in
    /// their order.
    pub fn extend_from_slice<T: Copy>(self, store: &mut Store<T>, obj: Glob, other: &[T]) -> (r:
        VecDispatch<T>)
        requires
            old(store).wf(),
            old(store)@.has_owner(obj.id as int),
            old(store)@.has_vec(self.index()),
        ensures
            final(store).wf(),
            final(store)@ == old(store)@.with_items(
                obj.id as int,
                self.index(),
                old(store)@.vec(obj.id as int, self.index()).items + other@,
            ),
            r.items@ == other@,
            r.calls@ == vec_calls(final(store)@.vec(obj.id as int, self.index()), false),
    {
        let ghost before = *store;
        let ghost n = obj.id as int;
        let ghost v = self.index();
        let ghost start = store@.vec(n, v).items;
        proof {
            assert(store@.owner_ok(n));
            assert(other@.take(0) =~= Seq::<T>::empty());
            assert(start + other@.take(0) =~= start);
            lemma_with_items_again(before@, n, v, start, start);
        }
        let mut i: usize = 0;
        while i < other.len()
            invariant
                before.wf(),
                before@.has_owner(n),
                before@.has_vec(v),
                n == obj.id,
                v == self.index(),
                start == before@.vec(n, v).items,
                i <= other@.len(),
                store.wf(),
                store@ == before@.with_items(n, v, start + other@.take(i as int)),
            decreases other@.len() - i,
        {
            let ghost mid = *store;
            proof {
                assert(before@.owner_ok(n));
                assert(mid@.owner_ok(n));
            }
            store.owners[obj.id].vecs[self.offset].items.push(other[i]);
            proof {
                lemma_items_replaced(mid, *store, n, v);
                assert(other@.take(i + 1) =~= other@.take(i as int).push(other@[i as int]));
                assert(start + other@.take(i + 1) =~= (start + other@.take(i as int)).push(
                    other@[i as int],
                ));
                lemma_with_items_again(
                    before@,
                    n,
                    v,
                    start + other@.take(i as int),
                    start + other@.take(i + 1),
                );
            }
            i += 1;
        }
        proof {
            assert(other@.take(other@.len() as int) =~= other@);
            assert(start + Seq::<T>::empty() =~= start);
        }
        let affected = copy_items(other);
        self.dispatch(store, obj, false, affected)
    }
}

impl DepVec {
    /// Registers one more handler for `event` on the collection on `obj`
    /// and returns the identifier it is registered under.
    pub(crate) fn register<T: Copy>(self, store: &mut Store<T>, obj: Glob, event: VecEvent) -> (id:
        u64)
        requires
            old(store).wf(),
            old(store)@.has_owner(obj.id as int),
            old(store)@.has_vec(self.index()),
            old(store)@.next_handler < u64::MAX,
        ensures
            final(store).wf(),
            id == old(store)@.next_handler,
            final(store)@ == with_vec_handler(old(store)@, obj.id as int, self.index(), event),
    {
        let ghost before = *store;
        let ghost s = store@;
        let ghost n = obj.id as int;
        let ghost v = self.index();
        proof {
            assert(s.owner_ok(n));
            assert(s.vec_ok(n, v));
        }
        let id = store.next_handler;
        store.next_handler = id + 1;
        match event {
            VecEvent::Inserted => {
                store.owners[obj.id].vecs[self.offset].inserted_items_handlers.insert(id);
            },
            VecEvent::Removed => {
                store.owners[obj.id].vecs[self.offset].removed_items_handlers.insert(id);
            },
            VecEvent::Changed => {
                store.owners[obj.id].vecs[self.offset].changed_handlers.insert(id);
            },
        }
        proof {
            let t = with_vec_handler(s, n, v, event);
            assert(store@.owners[n].vecs =~= t.owners[n].vecs);
            assert(store@.owners[n].props =~= t.owners[n].props);
            assert(store@.owners[n].events =~= t.owners[n].events);
            assert(store@.owners[n] == t.owners[n]);
            assert(store@.owners =~= t.owners);
            assert(store@ == t);
            assert(store.caches() =~~= before.caches());
            lemma_vec_relisted(s, t, before.caches(), n, v);
        }
        id
    }

    /// Revokes the handler `id` for `event` on the collection on `obj`.
    pub(crate) fn revoke<T: Copy>(self, store: &mut Store<T>, obj: Glob, event: VecEvent, id: u64)
        requires
            old(store).wf(),
            old(store)@.has_owner(obj.id as int),
            old(store)@.has_vec(self.index()),
            listed(old(store)@.vec(obj.id as int, self.index()), event).contains(id),
        ensures
            final(store).wf(),
            final(store)@ == without_vec_handler(
                old(store)@,
                obj.id as int,
                self.index(),
                event,
                id,
            ),
    {
        let ghost before = *store;
        let ghost s = store@;
        let ghost n = obj.id as int;
        let ghost v = self.index();
        proof {
            assert(s.owner_ok(n));
            assert(s.vec_ok(n, v));
            lemma_without_keeps(listed(s.vec(n, v), event), id);
        }
        match event {
            VecEvent::Inserted => {
                store.owners[obj.id].vecs[self.offset].inserted_items_handlers.remove(id);
            },
            VecEvent::Removed => {
                store.owners[obj.id].vecs[self.offset].removed_items_handlers.remove(id);
            },
            VecEvent::Changed => {
                store.owners[obj.id].vecs[self.offset].changed_handlers.remove(id);
            },
        }
        proof {
            let t = without_vec_handler(s, n, v, event, id);
            assert(store@.owners[n].vecs =~= t.owners[n].vecs);
            assert(store@.owners[n].props =~= t.owners[n].props);
            assert(store@.owners[n].events =~= t.owners[n].events);
            assert(store@.owners[n] == t.owners[n]);
            assert(store@.owners =~= t.owners);
            assert(store@ == t);
            assert(store.caches() =~~= before.caches());
            lemma_vec_relisted(s, t, before.caches(), n, v);
        }
    }

    /// Any change of the collection on `obj`, as something to subscribe to.
    pub fn changed_source(self, obj: Glob) -> (r: DepVecChangedSource)
        ensures
            r.owner() == obj.id,
            r.slot() == self.index(),
    {
        DepVecChangedSource { obj, vec: self }
    }

    /// The insertions into the collection on `obj`, as something to
    /// subscribe to.
    pub fn inserted_items_source(self, obj: Glob) -> (r: DepVecInsertedItemsSource)
        ensures
            r.owner() == obj.id,
            r.slot() == self.index(),
    {
        DepVecInsertedItemsSource { obj, vec: self }
    }

    /// The removals from the collection on `obj`, as something to subscribe
    /// to.
    pub fn removed_items_source(self, obj: Glob) -> (r: DepVecRemovedItemsSource)
        ensures
            r.owner() == obj.id,
            r.slot() == self.index(),
    {
        DepVecRemovedItemsSource { obj, vec: self }
    }
}

/// Any change of a collection on one owner, as something to subscribe to.
#[derive(Clone, Copy, Debug)]
pub struct DepVecChangedSource {
    pub(crate) obj: Glob,
    pub(crate) vec: DepVec,
}

impl DepVecChangedSource {
    pub open(crate) spec fn owner(&self) -> int {
        self.obj.id as int
    }

    pub open(crate) spec fn slot(&self) -> int {
        self.vec.index()
    }

    /// Registers a handler of any change. Where the collection is not
    /// empty, the handler is to be called at once.
    pub fn handle<T: Copy>(&self, store: &mut Store<T>) -> (r: HandledEventSource<()>)
        requires
            old(store).wf(),
            old(store)@.has_owner(self.owner()),
            old(store)@.has_vec(self.slot()),
            old(store)@.next_handler < u64::MAX,
        ensures
            final(store).wf(),
            final(store)@ == with_vec_handler(
                old(store)@,
                self.owner(),
                self.slot(),
                VecEvent::Changed,
            ),
            r.handler_id == old(store)@.next_handler,
            r.args.is_some() == (old(store)@.vec(self.owner(), self.slot()).items.len() > 0),
    {
        proof {
            assert(store@.owner_ok(self.owner()));
        }
        let args = if store.owners[self.obj.id].vecs[self.vec.offset].items.is_empty() {
            None
        } else {
            Some(())
        };
        let handler_id = self.vec.register(store, self.obj, VecEvent::Changed);
        HandledEventSource { handler_id, args }
    }

    /// Revokes the handler registered under `handler_id`.
    pub fn unhandle<T: Copy>(&self, store: &mut Store<T>, handler_id: u64)
        requires
            old(store).wf(),
            old(store)@.has_owner(self.owner()),
            old(store)@.has_vec(self.slot()),
            old(store)@.vec(self.owner(), self.slot()).changed_handlers.contains(handler_id),
        ensures
            final(store).wf(),
            final(store)@ == without_vec_handler(
                old(store)@,
                self.owner(),
                self.slot(),
                VecEvent::Changed,
                handler_id,
            ),
    {
        self.vec.revoke(store, self.obj, VecEvent::Changed, handler_id);
    }
}

/// The insertions into a collection on one owner, as something to subscribe
/// to.
#[derive(Clone, Copy, Debug)]
pub struct DepVecInsertedItemsSource {
    pub(crate) obj: Glob,
    pub(crate) vec: DepVec,
}

impl DepVecInsertedItemsSource {
    pub open(crate) spec fn owner(&self) -> int {
        self.obj.id as int
    }

    pub open(crate) spec fn slot(&self) -> int {
        self.vec.index()
    }

    /// Registers a handler of insertions. Where the collection is not
    /// empty, the handler is to be called at once with all its items, as if
    /// they had just been inserted.
    pub fn handle<T: Copy>(&self, store: &mut Store<T>) -> (r: HandledEventSource<Items<T>>)
        requires
            old(store).wf(),
            old(store)@.has_owner(self.owner()),
            old(store)@.has_vec(self.slot()),
            old(store)@.next_handler < u64::MAX,
        ensures
            final(store).wf(),
            final(store)@ == with_vec_handler(
                old(store)@,
                self.owner(),
                self.slot(),
                VecEvent::Inserted,
            ),
            r.handler_id == old(store)@.next_handler,
            match r.args {
                Some(items) => items@.len() > 0 && items@ == old(store)@.vec(
                    self.owner(),
                    self.slot(),
                ).items,
                None => old(store)@.vec(self.owner(), self.slot()).items.len() == 0,
            },
    {
        proof {
            assert(store@.owner_ok(self.owner()));
        }
        let items = copy_items(store.owners[self.obj.id].vecs[self.vec.offset].items.as_slice());
        let handler_id = self.vec.register(store, self.obj, VecEvent::Inserted);
        let args = if items.is_empty() {
            None
        } else {
            Some(Items::new(items))
        };
        HandledEventSource { handler_id, args }
    }

    /// Revokes the handler registered under `handler_id`.
    pub fn unhandle<T: Copy>(&self, store: &mut Store<T>, handler_id: u64)
        requires
            old(store).wf(),
            old(store)@.has_owner(self.owner()),
            old(store)@.has_vec(self.slot()),
            old(store)@.vec(self.owner(), self.slot()).inserted_items_handlers.contains(
                handler_id,
            ),
        ensures
            final(store).wf(),
            final(store)@ == without_vec_handler(
                old(store)@,
                self.owner(),
                self.slot(),
                VecEvent::Inserted,
                handler_id,
            ),
    {
        self.vec.revoke(store, self.obj, VecEvent::Inserted, handler_id);
    }
}

/// The removals from a collection on one owner, as something to subscribe
/// to.
#[derive(Clone, Copy, Debug)]
pub struct DepVecRemovedItemsSource {
    pub(crate) obj: Glob,
    pub(crate) vec: DepVec,
}

impl DepVecRemovedItemsSource {
    pub open(crate) spec fn owner(&self) -> int {
        self.obj.id as int
    }

    pub open(crate) spec fn slot(&self) -> int {
        self.vec.index()
    }

    /// Registers a handler of removals. The handler is never called at
    /// once.
    pub fn handle<T: Copy>(&self, store: &mut Store<T>) -> (r: HandledEventSource<Items<T>>)
        requires
            old(store).wf(),
            old(store)@.has_owner(self.owner()),
            old(store)@.has_vec(self.slot()),
            old(store)@.next_handler < u64::MAX,
        ensures
            final(store).wf(),
            final(store)@ == with_vec_handler(
                old(store)@,
                self.owner(),
                self.slot(),
                VecEvent::Removed,
            ),
            r.handler_id == old(store)@.next_handler,
            r.args.is_none(),
    {
        let handler_id = self.vec.register(store, self.obj, VecEvent::Removed);
        HandledEventSource { handler_id, args: None }
    }

    /// Revokes the handler registered under `handler_id`.
    pub fn unhandle<T: Copy>(&self, store: &mut Store<T>, handler_id: u64)
        requires
            old(store).wf(),
            old(store)@.has_owner(self.owner()),
            old(store)@.has_vec(self.slot()),
            old(store)@.vec(self.owner(), self.slot()).removed_items_handlers.contains(
                handler_id,
            ),
        ensures
            final(store).wf(),
            final(store)@ == without_vec_handler(
                old(store)@,
                self.owner(),
                self.slot(),
                VecEvent::Removed,
                handler_id,
            ),
    {
        self.vec.revoke(store, self.obj, VecEvent::Removed, handler_id);
    }
}

/// A sound store with right caches stays so when the registrations of one
/// collection slot are replaced by sound ones and the next identifier does
/// not fall.
pub proof fn lemma_vec_relisted<T>(
    s: StoreState<T>,
    t: StoreState<T>,
    cs: Seq<Seq<Option<bool>>>,
    n: int,
    v: int,
)
    requires
        s.wf(),
        s.caches_ok(cs),
        s.has_owner(n),
        s.has_vec(v),
        s.next_handler <= t.next_handler,
        t == (StoreState { next_handler: t.next_handler, ..s.with_vec(n, v, t.vec(n, v)) }),
        relisted(s.vec(n, v).changed_handlers, t.vec(n, v).changed_handlers, t.next_handler),
        relisted(
            s.vec(n, v).removed_items_handlers,
            t.vec(n, v).removed_items_handlers,
            t.next_handler,
        ),
        relisted(
            s.vec(n, v).inserted_items_handlers,
            t.vec(n, v).inserted_items_handlers,
            t.next_handler,
        ),
    ensures
        t.wf(),
        t.caches_ok(cs),
{
    assert(s.owner_ok(n));
    lemma_one_owner_frame(s, t, n);
    lemma_props_untouched(s, t, cs);
}

/// Replacing the items of a collection twice is replacing them by the
/// second, and replacing them by what is there changes nothing.
pub proof fn lemma_with_items_again<T>(s: StoreState<T>, n: int, v: int, a: Seq<T>, b: Seq<T>)
    requires
        s.has_owner(n),
        0 <= v < s.owners[n].vecs.len(),
    ensures
        s.with_items(n, v, a).with_items(n, v, b) == s.with_items(n, v, b),
        s.with_items(n, v, s.vec(n, v).items) == s,
{
    let t = s.with_items(n, v, a).with_items(n, v, b);
    let u = s.with_items(n, v, b);
    assert(t.owners[n].vecs =~= u.owners[n].vecs);
    assert(t.owners =~= u.owners);
    let w = s.with_items(n, v, s.vec(n, v).items);
    assert(w.owners[n].vecs =~= s.owners[n].vecs);
    assert(w.owners =~= s.owners);
}

/// A store in which nothing but the items of one collection differs from a
/// sound store is sound, and it is that store with those items.
pub(crate) proof fn lemma_items_replaced<T: Copy>(before: Store<T>, after: Store<T>, n: int, v: int)
    requires
        before.wf(),
        before@.has_owner(n),
        before@.has_vec(v),
        after.prop_layout == before.prop_layout,
        after.event_layout == before.event_layout,
        after.vec_count == before.vec_count,
        after.next_handler == before.next_handler,
        after.owners@.len() == before.owners@.len(),
        forall|m: int|
            0 <= m < before.owners@.len() && m != n ==> after.owners@[m] == before.owners@[m],
        after.owners@[n].core == before.owners@[n].core,
        after.owners@[n].props == before.owners@[n].props,
        after.owners@[n].events == before.owners@[n].events,
        after.owners@[n].parent == before.owners@[n].parent,
        after.owners@[n].children == before.owners@[n].children,
        after.owners@[n].vecs@.len() == before.owners@[n].vecs@.len(),
        forall|q: int|
            0 <= q < before.owners@[n].vecs@.len() && q != v ==> after.owners@[n].vecs@[q]
                == before.owners@[n].vecs@[q],
        after.owners@[n].vecs@[v].changed_handlers == before.owners@[n].vecs@[v].changed_handlers,
        after.owners@[n].vecs@[v].removed_items_handlers
            == before.owners@[n].vecs@[v].removed_items_handlers,
        after.owners@[n].vecs@[v].inserted_items_handlers
            == before.owners@[n].vecs@[v].inserted_items_handlers,
    ensures
        after.wf(),
        after@ == before@.with_items(n, v, after.owners@[n].vecs@[v].items@),
        after@.vec(n, v).changed_handlers == before@.vec(n, v).changed_handlers,
        after@.vec(n, v).removed_items_handlers == before@.vec(n, v).removed_items_handlers,
        after@.vec(n, v).inserted_items_handlers == before@.vec(n, v).inserted_items_handlers,
        after@.vec(n, v).items == after.owners@[n].vecs@[v].items@,
{
    let s = before@;
    let t = s.with_items(n, v, after.owners@[n].vecs@[v].items@);
    assert(s.owner_ok(n));
    assert(after@.owners[n].vecs =~= t.owners[n].vecs);
    assert(after@.owners[n].props =~= t.owners[n].props);
    assert(after@.owners[n].events =~= t.owners[n].events);
    assert(after@.owners[n] == t.owners[n]);
    assert(after@.owners =~= t.owners);
    assert(after@ == t);
    assert(after.caches() =~~= before.caches());
    lemma_vec_relisted(s, t, before.caches(), n, v);
}

} // verus!
