//! Giving an owner up: handing out its handlers and bindings.

use crate::cache::{
    lemma_listener_changed, lemma_one_owner_frame, lemma_props_untouched, lemma_same_frame_wf,
};
use crate::entry::{Binding, EventState, PropState, VecState};
use crate::event::lemma_event_relisted;
use crate::model::{OwnerState, StoreState};
use crate::notify::Glob;
use crate::prop::DepProp;
use crate::store::Store;
use crate::vec::lemma_vec_relisted;
use vstd::prelude::*;

verus! {

/// The handlers registered on the first `p` properties of the owner `n`:
/// for each property those of its value, then those of its changes.
pub open spec fn prop_handlers<T>(s: StoreState<T>, n: int, p: int) -> Seq<u64>
    decreases p,
{
    if p <= 0 {
        Seq::empty()
    } else {
        prop_handlers(s, n, p - 1) + s.prop(n, p - 1).value_handlers + s.prop(
            n,
            p - 1,
        ).change_handlers
    }
}

/// The handlers registered on the first `e` events of the owner `n`.
pub open spec fn event_handlers<T>(s: StoreState<T>, n: int, e: int) -> Seq<u64>
    decreases e,
{
    if e <= 0 {
        Seq::empty()
    } else {
        event_handlers(s, n, e - 1) + s.event(n, e - 1).handlers
    }
}

/// The handlers registered on the first `v` collections of the owner `n`:
/// for each collection those of any change, then those of removals, then
/// those of insertions.
pub open spec fn vec_handlers<T>(s: StoreState<T>, n: int, v: int) -> Seq<u64>
    decreases v,
{
    if v <= 0 {
        Seq::empty()
    } else {
        vec_handlers(s, n, v - 1) + s.vec(n, v - 1).changed_handlers + s.vec(
            n,
            v - 1,
        ).removed_items_handlers + s.vec(n, v - 1).inserted_items_handlers
    }
}

/// Every handler registered on the owner `n`: those of its properties, then
/// those of its events, then those of its collections.
pub open spec fn all_handlers<T>(s: StoreState<T>, n: int) -> Seq<u64> {
    let o = s.owners[n];
    prop_handlers(s, n, o.props.len() as int) + event_handlers(s, n, o.events.len() as int)
        + vec_handlers(s, n, o.vecs.len() as int)
}

/// The store without the handlers on the first `p` properties, the first
/// `e` events and the first `v` collections of the owner `n`.
pub open spec fn cleared<T>(s: StoreState<T>, n: int, p: int, e: int, v: int) -> StoreState<T> {
    let o = s.owners[n];
    StoreState {
        owners: s.owners.update(
            n,
            OwnerState {
                props: Seq::new(
                    o.props.len(),
                    |q: int|
                        if q < p {
                            PropState {
                                value_handlers: Seq::empty(),
                                change_handlers: Seq::empty(),
                                ..o.props[q]
                            }
                        } else {
                            o.props[q]
                        },
                ),
                events: Seq::new(
                    o.events.len(),
                    |q: int|
                        if q < e {
                            EventState { handlers: Seq::empty(), ..o.events[q] }
                        } else {
                            o.events[q]
                        },
                ),
                vecs: Seq::new(
                    o.vecs.len(),
                    |q: int|
                        if q < v {
                            VecState {
                                changed_handlers: Seq::empty(),
                                removed_items_handlers: Seq::empty(),
                                inserted_items_handlers: Seq::empty(),
                                ..o.vecs[q]
                            }
                        } else {
                            o.vecs[q]
                        },
                ),
                ..o
            },
        ),
        ..s
    }
}

/// The store without any handler on the owner `n`.
pub open spec fn without_handlers<T>(s: StoreState<T>, n: int) -> StoreState<T> {
    let o = s.owners[n];
    cleared(s, n, o.props.len() as int, o.events.len() as int, o.vecs.len() as int)
}

/// The bindings of the first `p` properties of the owner `n`.
pub open spec fn prop_bindings<T>(s: StoreState<T>, n: int, p: int) -> Seq<Binding>
    decreases p,
{
    if p <= 0 {
        Seq::empty()
    } else {
        prop_bindings(s, n, p - 1) + match s.prop(n, p - 1).binding {
            Some(b) => seq![b],
            None => Seq::empty(),
        }
    }
}

/// The store with the bindings that the owner `n` has added replaced by
/// `bindings`.
pub open spec fn with_bindings<T>(s: StoreState<T>, n: int, bindings: Seq<Binding>) -> StoreState<
    T,
> {
    StoreState { owners: s.owners.update(n, OwnerState { bindings, ..s.owners[n] }), ..s }
}

impl<T: Copy> Store<T> {
    /// Hands out every handler that is registered on `obj`, for the caller
    /// to drop, and leaves `obj` without handlers: those of its properties
    /// first, then those of its events, then those of its collections, in
    /// the order of the slots. To be called before an owner is given up.
    pub fn take_all_handlers(&mut self, obj: Glob) -> (r: Vec<u64>)
        requires
            old(self).wf(),
            old(self)@.has_owner(obj.id as int),
        ensures
            final(self).wf(),
            final(self)@ == without_handlers(old(self)@, obj.id as int),
            r@ == all_handlers(old(self)@, obj.id as int),
    {
        let ghost s = self@;
        let ghost n = obj.id as int;
        proof {
            assert(s.owner_ok(n));
            assert(cleared(s, n, 0, 0, 0).owners[n].props =~= s.owners[n].props);
            assert(cleared(s, n, 0, 0, 0).owners[n].events =~= s.owners[n].events);
            assert(cleared(s, n, 0, 0, 0).owners[n].vecs =~= s.owners[n].vecs);
            assert(cleared(s, n, 0, 0, 0).owners =~= s.owners);
        }
        let mut out: Vec<u64> = Vec::new();
        let prop_count = self.owners[obj.id].props.len();
        let event_count = self.owners[obj.id].events.len();
        let vec_count = self.owners[obj.id].vecs.len();
        let mut p: usize = 0;
        while p < prop_count
            invariant
                self.wf(),
                s.wf(),
                n == obj.id,
                s.has_owner(n),
                prop_count == s.owners[n].props.len(),
                prop_count == s.prop_layout.len(),
                p <= prop_count,
                self@ == cleared(s, n, p as int, 0, 0),
                out@ == prop_handlers(s, n, p as int),
            decreases prop_count - p,
        {
            let ghost m = self@;
            let ghost cs = self.caches();
            proof {
                assert(m.owner_ok(n));
                assert(m.prop_ok(n, p as int));
                assert(s.owner_ok(n));
                assert(cs[n][p as int] == self.owners@[n].props@[p as int].cache());
            }
            self.owners[obj.id].props[p].take_all_handlers(&mut out);
            proof {
                let e = PropState {
                    value_handlers: Seq::empty(),
                    change_handlers: Seq::empty(),
                    ..m.prop(n, p as int)
                };
                let t = m.with_prop(n, p as int, e);
                assert(self@.owners[n].props =~= t.owners[n].props);
                assert(self@.owners[n].events =~= t.owners[n].events);
                assert(self@.owners[n].vecs =~= t.owners[n].vecs);
                assert(self@.owners[n] == t.owners[n]);
                assert(self@.owners =~= t.owners);
                assert(self@ == t);
                assert(self.caches() =~~= cs);
                lemma_one_owner_frame(m, t, n);
                lemma_same_frame_wf(m, t);
                lemma_listener_changed(m, t, cs, n, p as int);
                let u = cleared(s, n, p + 1, 0, 0);
                assert(t.owners[n].props =~= u.owners[n].props);
                assert(t.owners[n].events =~= u.owners[n].events);
                assert(t.owners[n].vecs =~= u.owners[n].vecs);
                assert(t.owners =~= u.owners);
                assert(t == u);
                assert(m.prop(n, p as int).value_handlers == s.prop(n, p as int).value_handlers);
                assert(m.prop(n, p as int).change_handlers == s.prop(n, p as int).change_handlers);
            }
            let entry = &self.owners[obj.id].props[p];
            if entry.inherits() && !entry.has_handlers() {
                match self.owners[obj.id].parent {
                    Some(q) => {
                        proof {
                            let t = self@;
                            assert(t.owner_ok(n));
                            assert(t.prop_ok(n, p as int));
                            assert(t.owner_ok(q as int));
                            assert(t.prop_ok(q as int, p as int));
                            if t.caches_ok(self.caches()) {
                                assert(t.cache_ok(self.caches(), q as int, p as int));
                            }
                        }
                        DepProp::new(p).update_children_has_handlers(self, Glob { id: q });
                    },
                    None => {},
                }
            }
            p += 1;
        }
        let ghost props_done = out@;
        let mut e: usize = 0;
        while e < event_count
            invariant
                self.wf(),
                s.wf(),
                n == obj.id,
                s.has_owner(n),
                prop_count == s.owners[n].props.len(),
                event_count == s.owners[n].events.len(),
                event_count == s.event_layout.len(),
                e <= event_count,
                self@ == cleared(s, n, prop_count as int, e as int, 0),
                out@ == props_done + event_handlers(s, n, e as int),
            decreases event_count - e,
        {
            let ghost m = self@;
            let ghost cs = self.caches();
            proof {
                assert(m.owner_ok(n));
                assert(m.event_ok(n, e as int));
                assert(s.owner_ok(n));
            }
            self.owners[obj.id].events[e].take_all_handlers(&mut out);
            proof {
                let x = EventState { handlers: Seq::empty(), ..m.event(n, e as int) };
                let t = m.with_event(n, e as int, x);
                assert(self@.owners[n].props =~= t.owners[n].props);
                assert(self@.owners[n].events =~= t.owners[n].events);
                assert(self@.owners[n].vecs =~= t.owners[n].vecs);
                assert(self@.owners[n] == t.owners[n]);
                assert(self@.owners =~= t.owners);
                assert(self@ == t);
                assert(self.caches() =~~= cs);
                lemma_event_relisted(m, t, cs, n, e as int);
                let u = cleared(s, n, prop_count as int, e + 1, 0);
                assert(t.owners[n].props =~= u.owners[n].props);
                assert(t.owners[n].events =~= u.owners[n].events);
                assert(t.owners[n].vecs =~= u.owners[n].vecs);
                assert(t.owners =~= u.owners);
                assert(t == u);
                assert(m.event(n, e as int).handlers == s.event(n, e as int).handlers);
                assert(out@ =~= props_done + event_handlers(s, n, e + 1));
            }
            e += 1;
        }
        let ghost events_done = out@;
        let mut v: usize = 0;
        while v < vec_count
            invariant
                self.wf(),
                s.wf(),
                n == obj.id,
                s.has_owner(n),
                prop_count == s.owners[n].props.len(),
                event_count == s.owners[n].events.len(),
                vec_count == s.owners[n].vecs.len(),
                vec_count == s.vec_count,
                v <= vec_count,
                self@ == cleared(s, n, prop_count as int, event_count as int, v as int),
                out@ == events_done + vec_handlers(s, n, v as int),
            decreases vec_count - v,
        {
            let ghost m = self@;
            let ghost cs = self.caches();
            proof {
                assert(m.owner_ok(n));
                assert(m.vec_ok(n, v as int));
                assert(s.owner_ok(n));
            }
            self.owners[obj.id].vecs[v].take_all_handlers(&mut out);
            proof {
                let x = VecState {
                    changed_handlers: Seq::empty(),
                    removed_items_handlers: Seq::empty(),
                    inserted_items_handlers: Seq::empty(),
                    ..m.vec(n, v as int)
                };
                let t = m.with_vec(n, v as int, x);
                assert(self@.owners[n].props =~= t.owners[n].props);
                assert(self@.owners[n].events =~= t.owners[n].events);
                assert(self@.owners[n].vecs =~= t.owners[n].vecs);
                assert(self@.owners[n] == t.owners[n]);
                assert(self@.owners =~= t.owners);
                assert(self@ == t);
                assert(self.caches() =~~= cs);
                lemma_vec_relisted(m, t, cs, n, v as int);
                let u = cleared(s, n, prop_count as int, event_count as int, v + 1);
                assert(t.owners[n].props =~= u.owners[n].props);
                assert(t.owners[n].events =~= u.owners[n].events);
                assert(t.owners[n].vecs =~= u.owners[n].vecs);
                assert(t.owners =~= u.owners);
                assert(t == u);
                assert(m.vec(n, v as int) == (VecState {
                    items: m.vec(n, v as int).items,
                    ..s.vec(n, v as int)
                }));
                assert(out@ =~= events_done + vec_handlers(s, n, v + 1));
            }
            v += 1;
        }
        proof {
            assert(out@ =~= all_handlers(s, n));
        }
        out
    }

    /// Hands out the bindings that `obj` has added, in the order in which
    /// it added them, and then the binding of each of its properties that
    /// has one, in the order of the properties, for the caller to tear
    /// down. Leaves `obj` with no added binding. To be called before an
    /// owner is given up.
    pub fn take_added_bindings_and_collect_all(&mut self, obj: Glob) -> (r: Vec<Binding>)
        requires
            old(self).wf(),
            old(self)@.has_owner(obj.id as int),
        ensures
            final(self).wf(),
            final(self)@ == with_bindings(old(self)@, obj.id as int, Seq::empty()),
            r@ == old(self)@.owners[obj.id as int].bindings + prop_bindings(
                old(self)@,
                obj.id as int,
                old(self)@.prop_layout.len() as int,
            ),
    {
        let ghost before = *self;
        let ghost s = self@;
        let ghost n = obj.id as int;
        proof {
            assert(s.owner_ok(n));
        }
        let mut out = self.owners[obj.id].core.take_bindings();
        proof {
            lemma_bindings_replaced(before, *self, n);
        }
        let ghost added = out@;
        let ghost t = self@;
        let count = self.owners[obj.id].props.len();
        let mut p: usize = 0;
        while p < count
            invariant
                self.wf(),
                t == self@,
                n == obj.id,
                t.has_owner(n),
                s.has_owner(n),
                t == with_bindings(s, n, Seq::empty()),
                count == t.owners[n].props.len(),
                p <= count,
                out@ == added + prop_bindings(s, n, p as int),
            decreases count - p,
        {
            proof {
                assert(t.prop(n, p as int) == s.prop(n, p as int));
            }
            match self.owners[obj.id].props[p].binding() {
                Some(b) => {
                    out.push(b);
                },
                None => {},
            }
            proof {
                assert(out@ =~= added + prop_bindings(s, n, p + 1));
            }
            p += 1;
        }
        out
    }
}

impl Glob {
    /// Notes that the owner has added `binding`, so that the binding is
    /// handed out for tearing down when the owner is given up.
    pub fn add_binding<T: Copy>(self, store: &mut Store<T>, binding: Binding)
        requires
            old(store).wf(),
            old(store)@.has_owner(self.id as int),
        ensures
            final(store).wf(),
            final(store)@ == with_bindings(
                old(store)@,
                self.id as int,
                old(store)@.owners[self.id as int].bindings.push(binding),
            ),
    {
        let ghost before = *store;
        store.owners[self.id].core.added_bindings.push(binding);
        proof {
            lemma_bindings_replaced(before, *store, self.id as int);
        }
    }
}

/// A store in which nothing but the added bindings of one owner differs
/// from a sound store is sound, and it is that store with those bindings.
pub(crate) proof fn lemma_bindings_replaced<T: Copy>(before: Store<T>, after: Store<T>, n: int)
    requires
        before.wf(),
        before@.has_owner(n),
        after.prop_layout == before.prop_layout,
        after.event_layout == before.event_layout,
        after.vec_count == before.vec_count,
        after.next_handler == before.next_handler,
        after.owners@.len() == before.owners@.len(),
        forall|m: int|
            0 <= m < before.owners@.len() && m != n ==> after.owners@[m] == before.owners@[m],
        after.owners@[n].core.style_view() == before.owners@[n].core.style_view(),
        after.owners@[n].props == before.owners@[n].props,
        after.owners@[n].events == before.owners@[n].events,
        after.owners@[n].vecs == before.owners@[n].vecs,
        after.owners@[n].parent == before.owners@[n].parent,
        after.owners@[n].children == before.owners@[n].children,
    ensures
        after.wf(),
        after@ == with_bindings(before@, n, after.owners@[n].core.bindings_view()),
{
    let s = before@;
    let t = with_bindings(s, n, after.owners@[n].core.bindings_view());
    assert(s.owner_ok(n));
    assert(after@.owners[n].props =~= t.owners[n].props);
    assert(after@.owners[n].events =~= t.owners[n].events);
    assert(after@.owners[n].vecs =~= t.owners[n].vecs);
    assert(after@.owners[n] == t.owners[n]);
    assert(after@.owners =~= t.owners);
    assert(after@ == t);
    assert(after.caches() =~~= before.caches());
    lemma_one_owner_frame(s, t, n);
    lemma_props_untouched(s, t, before.caches());
}

} // verus!
