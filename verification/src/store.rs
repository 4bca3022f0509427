//! The store: the owners, the layout that they share, and the invariant.

use crate::entry::{Binding, DepEventEntry, DepPropEntry, DepVecEntry};
use crate::model::{OwnerState, StoreState};
use crate::notify::Glob;
use crate::style::Style;
use vstd::prelude::*;

verus! {

/// What every owner holds besides its slots: the style applied to it and the
/// bindings that it has added.
#[derive(Debug)]
pub struct BaseDepObjCore<T> {
    pub(crate) style: Option<Style<T>>,
    pub(crate) added_bindings: Vec<Binding>,
}

impl<T: Copy> BaseDepObjCore<T> {
    pub open(crate) spec fn style_view(&self) -> Option<Seq<(usize, T)>> {
        match self.style {
            Some(s) => Some(s@),
            None => None,
        }
    }

    pub open(crate) spec fn bindings_view(&self) -> Seq<Binding> {
        self.added_bindings@
    }

    pub fn new() -> (r: Self)
        ensures
            r.style_view().is_none(),
            r.bindings_view() == Seq::<Binding>::empty(),
    {
        BaseDepObjCore { style: None, added_bindings: Vec::new() }
    }

    /// Hands out the bindings that the owner has added, in the order in
    /// which it added them, and leaves it with none.
    pub fn take_bindings(&mut self) -> (r: Vec<Binding>)
        ensures
            r@ == old(self).bindings_view(),
            final(self).bindings_view() == Seq::<Binding>::empty(),
            final(self).style_view() == old(self).style_view(),
    {
        let mut out: Vec<Binding> = Vec::new();
        std::mem::swap(&mut out, &mut self.added_bindings);
        out
    }

    /// The style that is applied to the owner, if one is.
    pub fn style(&self) -> (r: Option<&Style<T>>)
        ensures
            match r {
                Some(s) => self.style_view() == Some(s@),
                None => self.style_view().is_none(),
            },
    {
        self.style.as_ref()
    }
}

/// A dependency object: the slots of one owner, and its place among the
/// owners of its store.
#[derive(Debug)]
pub struct Owner<T> {
    pub(crate) core: BaseDepObjCore<T>,
    pub(crate) props: Vec<DepPropEntry<T>>,
    pub(crate) events: Vec<DepEventEntry>,
    pub(crate) vecs: Vec<DepVecEntry<T>>,
    pub(crate) parent: Option<usize>,
    pub(crate) children: Vec<usize>,
}

impl<T: Copy> View for Owner<T> {
    type V = OwnerState<T>;

    open(crate) spec fn view(&self) -> OwnerState<T> {
        OwnerState {
            parent: self.parent,
            children: self.children@,
            props: Seq::new(self.props@.len(), |i: int| self.props@[i]@),
            events: Seq::new(self.events@.len(), |i: int| self.events@[i]@),
            vecs: Seq::new(self.vecs@.len(), |i: int| self.vecs@[i]@),
            style: self.core.style_view(),
            bindings: self.core.bindings_view(),
        }
    }
}

impl<T: Copy> Owner<T> {
    pub fn core_base(&self) -> (r: &BaseDepObjCore<T>)
        ensures
            r.style_view() == self@.style,
            r.bindings_view() == self@.bindings,
    {
        &self.core
    }

    pub fn prop_entry(&self, offset: usize) -> (r: &DepPropEntry<T>)
        requires
            offset < self@.props.len(),
        ensures
            r@ == self@.props[offset as int],
    {
        &self.props[offset]
    }

    pub fn event_entry(&self, offset: usize) -> (r: &DepEventEntry)
        requires
            offset < self@.events.len(),
        ensures
            r@ == self@.events[offset as int],
    {
        &self.events[offset]
    }

    pub fn vec_entry(&self, offset: usize) -> (r: &DepVecEntry<T>)
        requires
            offset < self@.vecs.len(),
        ensures
            r@ == self@.vecs[offset as int],
    {
        &self.vecs[offset]
    }
}

/// The context of every operation: the owners, with the layout of slots that
/// they share and the hierarchy that they form.
#[derive(Debug)]
pub struct Store<T> {
    pub(crate) prop_layout: Vec<(T, bool)>,
    pub(crate) event_layout: Vec<bool>,
    pub(crate) vec_count: usize,
    pub(crate) owners: Vec<Owner<T>>,
    pub(crate) next_handler: u64,
}

impl<T: Copy> View for Store<T> {
    type V = StoreState<T>;

    open(crate) spec fn view(&self) -> StoreState<T> {
        StoreState {
            prop_layout: self.prop_layout@,
            event_layout: self.event_layout@,
            vec_count: self.vec_count as nat,
            owners: Seq::new(self.owners@.len(), |i: int| self.owners@[i]@),
            next_handler: self.next_handler,
        }
    }
}

impl<T: Copy> Store<T> {
    /// The caches of the property slots: for each owner and each property
    /// that inherits, whether some child of the owner has anybody to tell of
    /// a change.
    pub open(crate) spec fn caches(&self) -> Seq<Seq<Option<bool>>> {
        Seq::new(
            self.owners@.len(),
            |n: int|
                Seq::new(
                    self.owners@[n].props@.len(),
                    |p: int| self.owners@[n].props@[p].children_has_handlers,
                ),
        )
    }

    /// What holds of the store at every moment, also while a style is being
    /// applied setter by setter: what it holds is sound but for style slots
    /// that may not mirror their style, and every cache is right.
    pub open(crate) spec fn base_wf(&self) -> bool {
        &&& self@.base_wf()
        &&& self@.caches_ok(self.caches())
    }

    /// The store's invariant: what holds at every moment, and every style
    /// slot mirrors its owner's style.
    pub open spec fn wf(&self) -> bool {
        &&& self.base_wf()
        &&& self@.mirrored()
    }

    /// What a sound store holds is sound, and its caches are right.
    pub proof fn lemma_view_wf(&self)
        requires
            self.base_wf(),
        ensures
            self@.base_wf(),
            self@.caches_ok(self.caches()),
            self.wf() ==> self@.wf(),
    {
    }

    /// A store without owners, for owners with one property slot for each
    /// pair of a default value and a flag that says whether the property
    /// inherits, one event slot for each flag that says whether the event
    /// bubbles, and `vecs` collection slots.
    pub fn new(props: Vec<(T, bool)>, events: Vec<bool>, vecs: usize) -> (r: Self)
        ensures
            r.wf(),
            r@ == (StoreState {
                prop_layout: props@,
                event_layout: events@,
                vec_count: vecs as nat,
                owners: Seq::<OwnerState<T>>::empty(),
                next_handler: 0,
            }),
    {
        let r = Store {
            prop_layout: props,
            event_layout: events,
            vec_count: vecs,
            owners: Vec::new(),
            next_handler: 0,
        };
        proof {
            assert(r@.owners =~= Seq::<OwnerState<T>>::empty());
            assert(r.caches() =~= Seq::<Seq<Option<bool>>>::empty());
        }
        r
    }

    /// The number of owners.
    pub fn len(&self) -> (r: usize)
        ensures
            r == self@.owners.len(),
    {
        self.owners.len()
    }

    pub fn is_empty(&self) -> (r: bool)
        ensures
            r == (self@.owners.len() == 0),
    {
        self.owners.len() == 0
    }

    /// Whether `obj` is the handle of an owner of this store.
    pub fn contains(&self, obj: Glob) -> (r: bool)
        ensures
            r == self@.has_owner(obj.id as int),
    {
        obj.id < self.owners.len()
    }

    /// The identifier that the next registration gets. Identifiers are
    /// given out in rising order and never twice.
    pub fn next_handler(&self) -> (r: u64)
        ensures
            r == self@.next_handler,
    {
        self.next_handler
    }

    pub fn prop_count(&self) -> (r: usize)
        ensures
            r == self@.prop_layout.len(),
    {
        self.prop_layout.len()
    }

    pub fn event_count(&self) -> (r: usize)
        ensures
            r == self@.event_layout.len(),
    {
        self.event_layout.len()
    }

    pub fn vec_count(&self) -> (r: usize)
        ensures
            r == self@.vec_count,
    {
        self.vec_count
    }
}

} // verus!
