//! The hierarchy of owners.

use crate::entry::{DepEventEntry, DepPropEntry, DepVecEntry, EventState, PropState, VecState};
use crate::model::{lemma_with_owner_caches, lemma_with_owner_wf};
use crate::notify::Glob;
use crate::store::{BaseDepObjCore, Owner, Store};
use vstd::prelude::*;

verus! {

impl<T: Copy> Store<T> {
    /// Makes an owner with the layout's slots, as the last child of `parent`
    /// or as a root, and returns its handle.
    pub fn insert(&mut self, parent: Option<Glob>) -> (r: Glob)
        requires
            old(self).wf(),
            match parent {
                Some(q) => old(self)@.has_owner(q.id as int),
                None => true,
            },
        ensures
            final(self).wf(),
            r.id == old(self)@.owners.len(),
            final(self)@ == old(self)@.with_owner(
                match parent {
                    Some(q) => Some(q.id),
                    None => None,
                },
            ),
    {
        let ghost before = *self;
        let ghost parent_id: Option<usize> = match parent {
            Some(q) => Some(q.id),
            None => None,
        };
        let id = self.owners.len();
        let mut props: Vec<DepPropEntry<T>> = Vec::new();
        let mut p: usize = 0;
        while p < self.prop_layout.len()
            invariant
                *self == before,
                p <= self.prop_layout@.len(),
                props@.len() == p,
                forall|k: int|
                    0 <= k < p ==> {
                        &&& (#[trigger] props@[k])@ == PropState::fresh(
                            self.prop_layout@[k].0,
                            self.prop_layout@[k].1,
                        )
                        &&& props@[k].children_has_handlers == if self.prop_layout@[k].1 {
                            Some(false)
                        } else {
                            None
                        }
                    },
            decreases self.prop_layout@.len() - p,
        {
            let (default, inherits) = self.prop_layout[p];
            props.push(DepPropEntry::new(default, inherits));
            p += 1;
        }
        let mut events: Vec<DepEventEntry> = Vec::new();
        let mut e: usize = 0;
        while e < self.event_layout.len()
            invariant
                *self == before,
                e <= self.event_layout@.len(),
                events@.len() == e,
                forall|k: int|
                    0 <= k < e ==> (#[trigger] events@[k])@ == (EventState {
                        bubble: self.event_layout@[k],
                        handlers: Seq::<u64>::empty(),
                    }),
            decreases self.event_layout@.len() - e,
        {
            events.push(DepEventEntry::new(self.event_layout[e]));
            e += 1;
        }
        let mut vecs: Vec<DepVecEntry<T>> = Vec::new();
        let mut v: usize = 0;
        while v < self.vec_count
            invariant
                *self == before,
                v <= self.vec_count,
                vecs@.len() == v,
                forall|k: int|
                    0 <= k < v ==> (#[trigger] vecs@[k])@ == (VecState {
                        items: Seq::<T>::empty(),
                        changed_handlers: Seq::<u64>::empty(),
                        removed_items_handlers: Seq::<u64>::empty(),
                        inserted_items_handlers: Seq::<u64>::empty(),
                    }),
            decreases self.vec_count - v,
        {
            vecs.push(DepVecEntry::new());
            v += 1;
        }
        let owner = Owner {
            core: BaseDepObjCore::new(),
            props,
            events,
            vecs,
            parent: match parent {
                Some(q) => Some(q.id),
                None => None,
            },
            children: Vec::new(),
        };
        proof {
            let fresh = before@.fresh_owner(parent_id);
            assert(owner@.props =~= fresh.props);
            assert(owner@.events =~= fresh.events);
            assert(owner@.vecs =~= fresh.vecs);
            assert(owner@.children =~= fresh.children);
            assert(owner@.bindings =~= fresh.bindings);
            assert(owner@.parent == fresh.parent);
            assert(owner@.style == fresh.style);
            assert(owner@ == fresh);
        }
        match parent {
            Some(q) => {
                self.owners[q.id].children.push(id);
            },
            None => {},
        }
        self.owners.push(owner);
        let count = self.owners.len();
        proof {
            assert(count == before.owners@.len() + 1);
            assert(self@.owners =~~= before@.with_owner(parent_id).owners);
            assert(self@ == before@.with_owner(parent_id));
            lemma_with_owner_wf(before@, parent_id);
            lemma_with_owner_caches(before@, before.caches(), parent_id);
            assert(self.caches() =~~= before.caches().push(before@.fresh_caches()));
        }
        Glob { id }
    }
}

impl Glob {
    /// The owner that the handle stands for.
    pub fn get<T: Copy>(self, store: &Store<T>) -> (r: &Owner<T>)
        requires
            store@.has_owner(self.id as int),
        ensures
            r@ == store@.owners[self.id as int],
    {
        &store.owners[self.id]
    }

    /// The owner's parent in the hierarchy, if it has one.
    pub fn parent<T: Copy>(self, store: &Store<T>) -> (r: Option<Glob>)
        requires
            store@.has_owner(self.id as int),
        ensures
            r == match store@.owners[self.id as int].parent {
                Some(q) => Some(Glob { id: q }),
                None => None,
            },
    {
        match store.owners[self.id].parent {
            Some(q) => Some(Glob { id: q }),
            None => None,
        }
    }

    /// The owner's last child, if it has children. The children of an owner
    /// are its last child's `next`, that owner's `next`, and so on up to
    /// the last child.
    pub fn last_child<T: Copy>(self, store: &Store<T>) -> (r: Option<Glob>)
        requires
            store@.has_owner(self.id as int),
        ensures
            r == match store@.last_child(self.id as int) {
                Some(c) => Some(Glob { id: c }),
                None => None,
            },
    {
        let kids = &store.owners[self.id].children;
        if kids.len() > 0 {
            Some(Glob { id: kids[kids.len() - 1] })
        } else {
            None
        }
    }

    /// The owner that comes after this one among the children of its
    /// parent, where the first child comes after the last; the owner itself
    /// where it has no parent.
    pub fn next<T: Copy>(self, store: &Store<T>) -> (r: Glob)
        requires
            store.wf(),
            store@.has_owner(self.id as int),
        ensures
            r.id == store@.next(self.id as int),
    {
        let ghost s = store@;
        let ghost n = self.id as int;
        proof {
            assert(s.owner_ok(n));
        }
        match store.owners[self.id].parent {
            Some(q) => {
                proof {
                    assert(s.owner_ok(q as int));
                }
                let kids = &store.owners[q].children;
                let ghost k = kids@.index_of(self.id);
                proof {
                    assert(s.parent_ok(n));
                    assert(kids@.contains(self.id));
                }
                let mut i: usize = 0;
                while i < kids.len()
                    invariant
                        s == store@,
                        n == self.id,
                        s.has_owner(q as int),
                        s.owners[n].parent == Some(q),
                        kids@ == s.owners[q as int].children,
                        s.owner_ok(q as int),
                        kids@.contains(self.id),
                        k == kids@.index_of(self.id),
                        0 <= k < kids@.len(),
                        kids@[k] == self.id,
                        i <= k,
                    decreases kids@.len() - i,
                {
                    if kids[i] == self.id {
                        proof {
                            assert(s.hierarchy_ok(q as int));
                            let all = s.owners[q as int].children;
                            if i < k {
                                assert(all[i as int] != all[k]);
                            }
                            assert(i == k);
                        }
                        if i + 1 < kids.len() {
                            return Glob { id: kids[i + 1] };
                        } else {
                            return Glob { id: kids[0] };
                        }
                    }
                    i += 1;
                }
                self
            },
            None => self,
        }
    }

    /// The owner and those above it, from the owner upwards.
    pub fn self_and_parents<T: Copy>(self, store: &Store<T>) -> (r: Vec<Glob>)
        requires
            store.wf(),
            store@.has_owner(self.id as int),
        ensures
            r@.len() == store@.self_and_parents(self.id as int).len(),
            forall|i: int| 0 <= i < r@.len() ==> (#[trigger] r@[i]).id == store@.self_and_parents(
                self.id as int,
            )[i],
    {
        let ghost s = store@;
        let ghost all = s.self_and_parents(self.id as int);
        let mut out: Vec<Glob> = Vec::new();
        let mut at = self;
        loop
            invariant
                store.wf(),
                s == store@,
                s.has_owner(at.id as int),
                all == s.self_and_parents(self.id as int),
                all.len() == out@.len() + s.self_and_parents(at.id as int).len(),
                forall|i: int| 0 <= i < out@.len() ==> (#[trigger] out@[i]).id == all[i],
                forall|i: int|
                    0 <= i < s.self_and_parents(at.id as int).len() ==> all[out@.len() + i]
                        == #[trigger] s.self_and_parents(at.id as int)[i],
            decreases at.id,
        {
            proof {
                assert(s.owner_ok(at.id as int));
                assert(s.self_and_parents(at.id as int)[0] == at.id);
            }
            let ghost rest = s.self_and_parents(at.id as int);
            out.push(at);
            match store.owners[at.id].parent {
                Some(q) => {
                    proof {
                        let up = s.self_and_parents(q as int);
                        assert(rest =~= seq![at.id] + up);
                        assert forall|i: int| 0 <= i < up.len() implies all[out@.len() + i]
                            == #[trigger] up[i] by {
                            assert(rest[i + 1] == up[i]);
                        }
                    }
                    at = Glob { id: q };
                },
                None => {
                    return out;
                },
            }
        }
    }
}

} // verus!
