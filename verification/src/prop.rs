//! Dependency properties: resolution of the effective value, set and
//! unset, propagation to inheriting owners, bindings, and the registration
//! of handlers with the caches that it keeps right.

use crate::cache::{
    lemma_cache_exact, lemma_cache_set_right, lemma_listener_changed, lemma_one_owner_frame,
    lemma_same_frame_wf, lemma_silent_below, lemma_with_prop, recached,
};
use crate::handlers::lemma_without_keeps;
use crate::change::{eq_is_identity, Change};
use crate::entry::{Binding, PropState};
use crate::model::{slot_change, OwnerState};
use crate::notify::{change_notes, value_notes, Glob, Notification, Payload};
use crate::source::{Bound, DepPropSet};
use crate::store::Store;
use vstd::prelude::*;

verus! {

/// The change of an effective value when the slot that decides it goes from
/// `before` to `after`, where `rest` shows while the slot is empty.
pub fn slot_change_of<T: Copy + PartialEq>(before: Option<T>, after: Option<T>, rest: T) -> (r:
    Option<Change<T>>)
    requires
        eq_is_identity::<T>(),
    ensures
        r == slot_change(before, after, rest),
{
    let shown_before = match before {
        Some(v) => v,
        None => rest,
    };
    let shown_after = match after {
        Some(v) => v,
        None => rest,
    };
    if shown_before == shown_after {
        None
    } else {
        Some(Change::new_self(shown_before, shown_after))
    }
}

/// A dependency property: the descriptor of one property slot, the same on
/// every owner of a store.
#[derive(Clone, Copy, Debug, PartialEq, Eq, Structural, Hash)]
pub struct DepProp {
    pub(crate) offset: usize,
}

impl DepProp {
    /// The position of the property's slot among its owner's properties.
    pub open(crate) spec fn spec_offset(self) -> usize {
        self.offset
    }

    /// The position of the property's slot, as a number.
    pub open spec fn index(self) -> int {
        self.spec_offset() as int
    }

    pub fn new(offset: usize) -> (r: Self)
        ensures
            r.spec_offset() == offset,
    {
        DepProp { offset }
    }

    #[verifier::when_used_as_spec(spec_offset)]
    pub fn offset(self) -> (r: usize)
        ensures
            r == self.spec_offset(),
    {
        self.offset
    }
}

impl DepProp {
    /// The effective value of the property on `obj`.
    pub fn current_value<T: Copy>(self, store: &Store<T>, obj: Glob) -> (r: T)
        requires
            store.base_wf(),
            store@.has_owner(obj.id as int),
            store@.has_prop(self.index()),
        ensures
            r == store@.current_value(self.index(), obj.id as int),
        decreases obj.id, 2int,
    {
        proof {
            assert(store@.owner_ok(obj.id as int));
        }
        match store.owners[obj.id].props[self.offset].local {
            Some(v) => v,
            None => self.non_local_value(store, obj),
        }
    }

    /// The effective value that `obj` would have without its local value.
    pub fn non_local_value<T: Copy>(self, store: &Store<T>, obj: Glob) -> (r: T)
        requires
            store.base_wf(),
            store@.has_owner(obj.id as int),
            store@.has_prop(self.index()),
        ensures
            r == store@.non_local_value(self.index(), obj.id as int),
        decreases obj.id, 1int,
    {
        proof {
            assert(store@.owner_ok(obj.id as int));
        }
        match store.owners[obj.id].props[self.offset].style {
            Some(v) => v,
            None => self.unstyled_non_local_value(store, obj),
        }
    }

    /// The effective value that `obj` would have without its local value and
    /// without its style: its parent's effective value if the property
    /// inherits and there is a parent, else the default.
    pub fn unstyled_non_local_value<T: Copy>(self, store: &Store<T>, obj: Glob) -> (r: T)
        requires
            store.base_wf(),
            store@.has_owner(obj.id as int),
            store@.has_prop(self.index()),
        ensures
            r == store@.unstyled_non_local_value(self.index(), obj.id as int),
        decreases obj.id, 0int,
    {
        proof {
            assert(store@.owner_ok(obj.id as int));
        }
        let entry = &store.owners[obj.id].props[self.offset];
        if entry.children_has_handlers.is_some() {
            match store.owners[obj.id].parent {
                Some(q) => self.current_value(store, Glob { id: q }),
                None => entry.default,
            }
        } else {
            entry.default
        }
    }

    /// Whether a handler of the property is registered on any owner below
    /// `obj`, however far down: what the cache of an inheriting property
    /// holds. Always false for a property that does not inherit.
    pub fn children_have_handlers<T: Copy>(self, store: &Store<T>, obj: Glob) -> (r: bool)
        requires
            store.wf(),
            store@.has_owner(obj.id as int),
            store@.has_prop(self.index()),
        ensures
            r == (store@.prop(obj.id as int, self.index()).inherits && store@.listens_below(
                self.index(),
                obj.id as int,
                0,
            )),
    {
        proof {
            let n = obj.id as int;
            let p = self.index();
            assert(store@.owner_ok(n));
            assert(store@.prop_ok(n, p));
            assert(store.caches()[n][p] == store.owners@[n].props@[p].children_has_handlers);
            lemma_cache_exact(store@, store.caches(), p, n);
        }
        match store.owners[obj.id].props[self.offset].children_has_handlers {
            Some(b) => b,
            None => false,
        }
    }

    /// Adds to `out` the calls owed to the handlers that `obj` itself has for
    /// the property: the value handlers first, then the change handlers, each
    /// kind in the order of registration.
    pub fn notify_owner<T: Copy>(
        self,
        store: &Store<T>,
        obj: Glob,
        change: Change<T>,
        out: &mut Vec<Notification<T>>,
    )
        requires
            store.wf(),
            store@.has_owner(obj.id as int),
            store@.has_prop(self.index()),
        ensures
            final(out)@ == old(out)@ + store@.notes_at(self.index(), obj.id as int, change),
    {
        proof {
            assert(store@.owner_ok(obj.id as int));
        }
        let entry = &store.owners[obj.id].props[self.offset];
        let value_handlers = entry.value_handlers.snapshot();
        let change_handlers = entry.change_handlers.snapshot();
        let new = change.into_new();
        let ghost n = obj.id as int;
        let ghost vn = value_notes(n, value_handlers@, new);
        let ghost cn = change_notes(n, change_handlers@, change);
        let mut i: usize = 0;
        while i < value_handlers.len()
            invariant
                i <= value_handlers@.len(),
                vn == value_notes(n, value_handlers@, new),
                n == obj.id,
                out@ == old(out)@ + vn.take(i as int),
            decreases value_handlers@.len() - i,
        {
            out.push(Notification { target: obj, handler: value_handlers[i], payload: Payload::Value(new) });
            proof {
                assert(vn.take(i + 1) =~= vn.take(i as int).push(vn[i as int]));
                assert(out@ =~= old(out)@ + vn.take(i + 1));
            }
            i += 1;
        }
        proof {
            assert(vn.take(vn.len() as int) =~= vn);
        }
        let mut j: usize = 0;
        while j < change_handlers.len()
            invariant
                j <= change_handlers@.len(),
                cn == change_notes(n, change_handlers@, change),
                n == obj.id,
                out@ == old(out)@ + vn + cn.take(j as int),
            decreases change_handlers@.len() - j,
        {
            out.push(
                Notification {
                    target: obj,
                    handler: change_handlers[j],
                    payload: Payload::Change(change),
                },
            );
            proof {
                assert(cn.take(j + 1) =~= cn.take(j as int).push(cn[j as int]));
                assert(out@ =~= old(out)@ + vn + cn.take(j + 1));
            }
            j += 1;
        }
        proof {
            assert(cn.take(cn.len() as int) =~= cn);
            assert(out@ =~= old(out)@ + (vn + cn));
        }
    }

    /// Adds to `out` the calls owed below `obj` when the effective value of
    /// the property changes on `obj`. A child that overrides the property is
    /// passed over with all that is below it. Any other child is told, and
    /// what is below it is visited if its cache says that somebody listens
    /// there.
    pub fn notify_children<T: Copy>(
        self,
        store: &Store<T>,
        obj: Glob,
        change: Change<T>,
        out: &mut Vec<Notification<T>>,
    )
        requires
            store.wf(),
            store@.has_owner(obj.id as int),
            store@.has_prop(self.index()),
            store@.prop_layout[self.index()].1,
        ensures
            final(out)@ == old(out)@ + store@.notes_below(self.index(), obj.id as int, change, 0),
        decreases store@.owners.len() - obj.id,
    {
        let ghost s = store@;
        let ghost p = self.index();
        let ghost n = obj.id as int;
        proof {
            assert(s.owner_ok(n));
        }
        let count = store.owners[obj.id].children.len();
        let mut i: usize = 0;
        while i < count
            invariant
                store.wf(),
                s == store@,
                p == self.index(),
                n == obj.id,
                s.has_owner(n),
                s.has_prop(p),
                s.prop_layout[p].1,
                count == s.owners[n].children.len(),
                i <= count,
                old(out)@ + s.notes_below(p, n, change, 0) == out@ + s.notes_below(
                    p,
                    n,
                    change,
                    i as int,
                ),
            decreases count - i,
        {
            let ghost before = out@;
            let child = store.owners[obj.id].children[i];
            proof {
                assert(s.owner_ok(n));
                assert(s.child_ok(n, i as int));
                assert(s.owner_ok(child as int));
            }
            let entry = &store.owners[child].props[self.offset];
            if entry.local.is_none() && entry.style.is_none() {
                let children_has_handlers = entry.children_has_handlers == Some(true);
                self.notify_owner(store, Glob { id: child }, change, out);
                if children_has_handlers {
                    self.notify_children(store, Glob { id: child }, change, out);
                } else {
                    proof {
                        lemma_cache_exact(s, store.caches(), p, child as int);
                        assert(s.prop_ok(child as int, p));
                        assert(store.caches()[child as int][p] == entry.children_has_handlers);
                        lemma_silent_below(s, p, child as int, change, 0);
                    }
                }
                proof {
                    assert(out@ =~= before + (s.notes_at(p, child as int, change)
                        + s.notes_below(p, child as int, change, 0)));
                }
            }
            proof {
                let here = if !s.prop(child as int, p).overrides() {
                    s.notes_at(p, child as int, change) + s.notes_below(p, child as int, change, 0)
                } else {
                    Seq::empty()
                };
                assert(out@ =~= before + here);
                assert(s.notes_below(p, n, change, i as int) == here + s.notes_below(
                    p,
                    n,
                    change,
                    i + 1,
                ));
                assert(out@ + s.notes_below(p, n, change, i + 1) =~= before + s.notes_below(
                    p,
                    n,
                    change,
                    i as int,
                ));
            }
            i += 1;
        }
        proof {
            assert(s.notes_below(p, n, change, count as int) =~= Seq::<Notification<T>>::empty());
            assert(out@ =~= old(out)@ + s.notes_below(p, n, change, 0));
        }
    }

    /// Adds to `out` the calls owed when the effective value of the property
    /// changes on `obj`: to the handlers of `obj` itself, and for an
    /// inheriting property to those below.
    pub fn notify<T: Copy>(
        self,
        store: &Store<T>,
        obj: Glob,
        change: Change<T>,
        out: &mut Vec<Notification<T>>,
    )
        requires
            store.wf(),
            store@.has_owner(obj.id as int),
            store@.has_prop(self.index()),
        ensures
            final(out)@ == old(out)@ + store@.notes(self.index(), obj.id as int, change),
    {
        let ghost s = store@;
        let ghost p = self.index();
        let ghost n = obj.id as int;
        proof {
            assert(s.owner_ok(n));
            assert(s.prop_ok(n, p));
            assert(store.caches()[n][p] == store.owners@[n].props@[p].children_has_handlers);
            lemma_cache_exact(s, store.caches(), p, n);
        }
        let ghost before = out@;
        self.notify_owner(store, obj, change, out);
        match store.owners[obj.id].props[self.offset].children_has_handlers {
            Some(true) => {
                self.notify_children(store, obj, change, out);
            },
            Some(false) => {
                proof {
                    lemma_silent_below(s, p, n, change, 0);
                }
            },
            None => {},
        }
        proof {
            assert(out@ =~= before + s.notes(p, n, change));
        }
    }

    /// Replaces the local value of the property on `obj` by `value`, and
    /// returns the calls that this owes to handlers, in the order in which
    /// they are to be made. Nothing is owed where the local value stays as
    /// it is, or the effective value stays the same.
    pub fn un_set<T: Copy + PartialEq>(
        self,
        store: &mut Store<T>,
        obj: Glob,
        value: Option<T>,
    ) -> (r: Vec<Notification<T>>)
        requires
            old(store).wf(),
            old(store)@.has_owner(obj.id as int),
            old(store)@.has_prop(self.index()),
            eq_is_identity::<T>(),
        ensures
            final(store).wf(),
            final(store)@ == old(store)@.with_local(obj.id as int, self.index(), value),
            r@ == final(store)@.notes_if(
                self.index(),
                obj.id as int,
                old(store)@.local_change(self.index(), obj.id as int, value),
            ),
    {
        let ghost before = *store;
        let ghost p = self.index();
        let ghost n = obj.id as int;
        proof {
            assert(before@.owner_ok(n));
            assert(before@.prop_ok(n, p));
        }
        let rest = self.non_local_value(store, obj);
        let old_local = store.owners[obj.id].props[self.offset].local;
        store.owners[obj.id].props[self.offset].local = value;
        proof {
            let e = PropState { local: value, ..before@.prop(n, p) };
            assert(store@.owners[n].props =~= before@.owners[n].props.update(p, e));
            assert(store@.owners =~= before@.owners.update(
                n,
                OwnerState {
                    props: before@.owners[n].props.update(p, e),
                    ..before@.owners[n]
                },
            ));
            assert(store@ == before@.with_local(n, p, value));
            assert(store.caches() =~~= before.caches());
            lemma_with_prop(before@, before.caches(), n, p, e);
        }
        let mut out: Vec<Notification<T>> = Vec::new();
        match slot_change_of(old_local, value, rest) {
            Some(change) => {
                self.notify(store, obj, change, &mut out);
                proof {
                    assert(out@ =~= store@.notes(p, n, change));
                }
            },
            None => {},
        }
        out
    }

    /// Gives the property the local value `value` on `obj`.
    pub fn set<T: Copy + PartialEq>(self, store: &mut Store<T>, obj: Glob, value: T) -> (r: Vec<
        Notification<T>,
    >)
        requires
            old(store).wf(),
            old(store)@.has_owner(obj.id as int),
            old(store)@.has_prop(self.index()),
            eq_is_identity::<T>(),
        ensures
            final(store).wf(),
            final(store)@ == old(store)@.with_local(obj.id as int, self.index(), Some(value)),
            r@ == final(store)@.notes_if(
                self.index(),
                obj.id as int,
                old(store)@.local_change(self.index(), obj.id as int, Some(value)),
            ),
    {
        self.un_set(store, obj, Some(value))
    }

    /// Takes the local value of the property on `obj` away.
    pub fn unset<T: Copy + PartialEq>(self, store: &mut Store<T>, obj: Glob) -> (r: Vec<
        Notification<T>,
    >)
        requires
            old(store).wf(),
            old(store)@.has_owner(obj.id as int),
            old(store)@.has_prop(self.index()),
            eq_is_identity::<T>(),
        ensures
            final(store).wf(),
            final(store)@ == old(store)@.with_local(obj.id as int, self.index(), None),
            r@ == final(store)@.notes_if(
                self.index(),
                obj.id as int,
                old(store)@.local_change(self.index(), obj.id as int, None),
            ),
    {
        self.un_set(store, obj, None)
    }

    /// Forgets the binding of the property on `obj` without tearing it
    /// down: what a binding asks for when it is torn down from its side.
    pub fn clear_binding<T: Copy>(self, store: &mut Store<T>, obj: Glob)
        requires
            old(store).wf(),
            old(store)@.has_owner(obj.id as int),
            old(store)@.has_prop(self.index()),
        ensures
            final(store).wf(),
            final(store)@ == old(store)@.with_binding(obj.id as int, self.index(), None),
    {
        self.replace_binding(store, obj, None);
    }

    /// Puts `binding` in the binding slot of the property on `obj` and
    /// returns what was there.
    fn replace_binding<T: Copy>(
        self,
        store: &mut Store<T>,
        obj: Glob,
        binding: Option<Binding>,
    ) -> (r: Option<Binding>)
        requires
            old(store).wf(),
            old(store)@.has_owner(obj.id as int),
            old(store)@.has_prop(self.index()),
        ensures
            final(store).wf(),
            final(store)@ == old(store)@.with_binding(obj.id as int, self.index(), binding),
            r == old(store)@.prop(obj.id as int, self.index()).binding,
    {
        let ghost before = *store;
        let ghost p = self.index();
        let ghost n = obj.id as int;
        proof {
            assert(before@.owner_ok(n));
            assert(before@.prop_ok(n, p));
        }
        let previous = store.owners[obj.id].props[self.offset].binding;
        store.owners[obj.id].props[self.offset].binding = binding;
        proof {
            let e = PropState { binding, ..before@.prop(n, p) };
            assert(store@.owners[n].props =~= before@.owners[n].props.update(p, e));
            assert(store@.owners =~= before@.owners.update(
                n,
                OwnerState {
                    props: before@.owners[n].props.update(p, e),
                    ..before@.owners[n]
                },
            ));
            assert(store@ == before@.with_binding(n, p, binding));
            assert(store.caches() =~~= before.caches());
            lemma_with_prop(before@, before.caches(), n, p, e);
        }
        previous
    }

    /// Attaches `binding` to the property on `obj`, where it takes the place
    /// of the binding that was attached before. Returns what is left to do
    /// outside the store: the binding that was attached before is to be
    /// torn down, and the property on `obj` is to be made the target of
    /// `binding`.
    pub fn bind<T: Copy>(self, store: &mut Store<T>, obj: Glob, binding: Binding) -> (r: Bound)
        requires
            old(store).wf(),
            old(store)@.has_owner(obj.id as int),
            old(store)@.has_prop(self.index()),
        ensures
            final(store).wf(),
            final(store)@ == old(store)@.with_binding(obj.id as int, self.index(), Some(binding)),
            r.torn_down == old(store)@.prop(obj.id as int, self.index()).binding,
            r.binding == binding,
            r.target.owner() == obj.id,
            r.target.slot() == self.index(),
    {
        let torn_down = self.replace_binding(store, obj, Some(binding));
        Bound { torn_down, binding, target: DepPropSet { obj, prop: self } }
    }

    /// Detaches the binding of the property on `obj`, if it has one, and
    /// returns it for the caller to tear down.
    pub fn unbind<T: Copy>(self, store: &mut Store<T>, obj: Glob) -> (r: Option<Binding>)
        requires
            old(store).wf(),
            old(store)@.has_owner(obj.id as int),
            old(store)@.has_prop(self.index()),
        ensures
            final(store).wf(),
            final(store)@ == old(store)@.with_binding(obj.id as int, self.index(), None),
            r == old(store)@.prop(obj.id as int, self.index()).binding,
    {
        self.replace_binding(store, obj, None)
    }

    /// Sets the cache of the property on `obj` right, the one cache that may
    /// be wrong: whether some child of `obj` has anybody to tell of a change.
    /// Where that changes the cache, the parent's cache is set right in the
    /// same way, and so on up the hierarchy.
    pub fn update_children_has_handlers<T: Copy>(self, store: &mut Store<T>, obj: Glob)
        requires
            old(store)@.base_wf(),
            old(store)@.has_owner(obj.id as int),
            old(store)@.has_prop(self.index()),
            old(store)@.caches_ok_except(old(store).caches(), obj.id as int, self.index()),
        ensures
            final(store).base_wf(),
            final(store)@ == old(store)@,
        decreases obj.id,
    {
        let ghost before = *store;
        let ghost s = store@;
        let ghost cs = store.caches();
        let ghost p = self.index();
        let ghost n = obj.id as int;
        proof {
            assert(s.owner_ok(n));
            assert(s.prop_ok(n, p));
        }
        let count = store.owners[obj.id].children.len();
        let mut found = false;
        let mut i: usize = 0;
        while i < count && !found
            invariant
                *store == before,
                s == store@,
                cs == store.caches(),
                s.base_wf(),
                s.caches_shaped(cs),
                p == self.index(),
                n == obj.id,
                s.has_owner(n),
                s.has_prop(p),
                count == s.owners[n].children.len(),
                i <= count,
                found ==> s.some_child_interested(cs, n, p),
                !found ==> forall|j: int| 0 <= j < i ==> !s.child_interested(cs, n, p, j),
            decreases count - i + if found { 0int } else { 1int },
        {
            proof {
                assert(s.owner_ok(n));
                assert(s.child_ok(n, i as int));
            }
            let child = store.owners[obj.id].children[i];
            proof {
                assert(s.owner_ok(child as int));
                assert(cs[child as int][p] == store.owners@[child as int].props@[p].cache());
            }
            if store.owners[child].props[self.offset].has_handlers() {
                proof {
                    assert(s.child_interested(cs, n, p, i as int));
                }
                found = true;
            }
            i += 1;
        }
        proof {
            if !found {
                assert(!s.some_child_interested(cs, n, p));
            }
            assert(cs[n][p] == store.owners@[n].props@[p].cache());
            lemma_cache_set_right(s, cs, n, p);
        }
        let same = match store.owners[obj.id].props[self.offset].children_has_handlers {
            Some(b) => b == found,
            None => false,
        };
        if same {
            return ;
        }
        store.owners[obj.id].props[self.offset].children_has_handlers = Some(found);
        proof {
            assert(store.caches() =~~= recached(cs, n, p, found));
            assert(store@.owners[n].props =~= s.owners[n].props);
            assert(store@.owners[n] == s.owners[n]);
            assert(store@.owners =~= s.owners);
            assert(store@ == s);
        }
        match store.owners[obj.id].parent {
            Some(q) => {
                self.update_children_has_handlers(store, Glob { id: q });
            },
            None => {},
        }
    }

    /// Registers one more handler on the property on `obj`, of its value or
    /// of its changes, and returns the identifier it is registered under.
    /// Where this is the first that `obj` has anybody to tell, the caches
    /// above `obj` are set right.
    pub(crate) fn register<T: Copy>(self, store: &mut Store<T>, obj: Glob, of_changes: bool) -> (id:
        u64)
        requires
            old(store).wf(),
            old(store)@.has_owner(obj.id as int),
            old(store)@.has_prop(self.index()),
            old(store)@.next_handler < u64::MAX,
        ensures
            final(store).wf(),
            id == old(store)@.next_handler,
            final(store)@ == if of_changes {
                old(store)@.with_change_handler(obj.id as int, self.index())
            } else {
                old(store)@.with_value_handler(obj.id as int, self.index())
            },
    {
        let ghost s = store@;
        let ghost cs = store.caches();
        let ghost p = self.index();
        let ghost n = obj.id as int;
        proof {
            assert(s.owner_ok(n));
            assert(s.prop_ok(n, p));
            assert(cs[n][p] == store.owners@[n].props@[p].cache());
        }
        let entry = &store.owners[obj.id].props[self.offset];
        let update_parent = entry.inherits() && !entry.has_handlers();
        let id = store.next_handler;
        store.next_handler = id + 1;
        if of_changes {
            store.owners[obj.id].props[self.offset].change_handlers.insert(id);
        } else {
            store.owners[obj.id].props[self.offset].value_handlers.insert(id);
        }
        proof {
            let t = if of_changes {
                s.with_change_handler(n, p)
            } else {
                s.with_value_handler(n, p)
            };
            assert(store@.owners[n].props =~= t.owners[n].props);
            assert(store@.owners[n] == t.owners[n]);
            assert(store@.owners =~= t.owners);
            assert(store@ == t);
            assert(store.caches() =~~= cs);
            lemma_one_owner_frame(s, t, n);
            lemma_same_frame_wf(s, t);
            lemma_listener_changed(s, t, cs, n, p);
        }
        if update_parent {
            match store.owners[obj.id].parent {
                Some(q) => {
                    self.update_children_has_handlers(store, Glob { id: q });
                },
                None => {},
            }
        }
        id
    }

    /// Revokes the handler `id` of the property on `obj`, of its value or of
    /// its changes. Where `obj` then has nobody to tell any more, the caches
    /// above `obj` are set right.
    pub(crate) fn revoke<T: Copy>(self, store: &mut Store<T>, obj: Glob, of_changes: bool, id: u64)
        requires
            old(store).wf(),
            old(store)@.has_owner(obj.id as int),
            old(store)@.has_prop(self.index()),
            if of_changes {
                old(store)@.prop(obj.id as int, self.index()).change_handlers.contains(id)
            } else {
                old(store)@.prop(obj.id as int, self.index()).value_handlers.contains(id)
            },
        ensures
            final(store).wf(),
            final(store)@ == if of_changes {
                old(store)@.without_change_handler(obj.id as int, self.index(), id)
            } else {
                old(store)@.without_value_handler(obj.id as int, self.index(), id)
            },
    {
        let ghost s = store@;
        let ghost cs = store.caches();
        let ghost p = self.index();
        let ghost n = obj.id as int;
        proof {
            assert(s.owner_ok(n));
            assert(s.prop_ok(n, p));
            assert(cs[n][p] == store.owners@[n].props@[p].cache());
            lemma_without_keeps(s.prop(n, p).change_handlers, id);
            lemma_without_keeps(s.prop(n, p).value_handlers, id);
        }
        if of_changes {
            store.owners[obj.id].props[self.offset].change_handlers.remove(id);
        } else {
            store.owners[obj.id].props[self.offset].value_handlers.remove(id);
        }
        proof {
            let t = if of_changes {
                s.without_change_handler(n, p, id)
            } else {
                s.without_value_handler(n, p, id)
            };
            assert(store@.owners[n].props =~= t.owners[n].props);
            assert(store@.owners[n] == t.owners[n]);
            assert(store@.owners =~= t.owners);
            assert(store@ == t);
            assert(store.caches() =~~= cs);
            lemma_one_owner_frame(s, t, n);
            lemma_same_frame_wf(s, t);
            lemma_listener_changed(s, t, cs, n, p);
        }
        let entry = &store.owners[obj.id].props[self.offset];
        if entry.inherits() && !entry.has_handlers() {
            match store.owners[obj.id].parent {
                Some(q) => {
                    self.update_children_has_handlers(store, Glob { id: q });
                },
                None => {},
            }
        }
    }
}

} // verus!
