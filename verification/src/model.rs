//! The mathematical model of a store: what it holds, when that is sound,
//! what every property shows, and which calls a change owes.

use crate::change::Change;
use crate::entry::{Binding, EventState, PropState, VecState};
use crate::handlers::{all_below, without};
use crate::notify::{change_notes, value_notes, Notification};
use crate::style::{sorted_by_offset, styled};
use vstd::prelude::*;

verus! {

/// What one owner holds: its place in the hierarchy, its slots, its style
/// and the bindings it has added.
pub struct OwnerState<T> {
    pub parent: Option<usize>,
    pub children: Seq<usize>,
    pub props: Seq<PropState<T>>,
    pub events: Seq<EventState>,
    pub vecs: Seq<VecState<T>>,
    pub style: Option<Seq<(usize, T)>>,
    pub bindings: Seq<Binding>,
}

/// What a store holds: the layout that all its owners share, the owners, and
/// the identifier that the next registration gets.
pub struct StoreState<T> {
    pub prop_layout: Seq<(T, bool)>,
    pub event_layout: Seq<bool>,
    pub vec_count: nat,
    pub owners: Seq<OwnerState<T>>,
    pub next_handler: u64,
}

impl<T> StoreState<T> {
    pub open spec fn has_owner(self, n: int) -> bool {
        0 <= n < self.owners.len()
    }

    pub open spec fn has_prop(self, p: int) -> bool {
        0 <= p < self.prop_layout.len()
    }

    pub open spec fn has_event(self, e: int) -> bool {
        0 <= e < self.event_layout.len()
    }

    pub open spec fn has_vec(self, v: int) -> bool {
        0 <= v < self.vec_count
    }

    /// The slot of the property `p` on the owner `n`.
    pub open spec fn prop(self, n: int, p: int) -> PropState<T> {
        self.owners[n].props[p]
    }

    /// The property slot `p` of the owner `n` is as the layout says, and
    /// its registrations are sound.
    pub open spec fn prop_ok(self, n: int, p: int) -> bool {
        let e = self.owners[n].props[p];
        &&& e.default == self.prop_layout[p].0
        &&& e.inherits == self.prop_layout[p].1
        &&& e.wf()
        &&& all_below(e.value_handlers, self.next_handler)
        &&& all_below(e.change_handlers, self.next_handler)
    }

    /// The style slot of the property `p` on the owner `n` holds what the
    /// owner's style sets the property to, and nothing where the style does
    /// not set it or there is no style.
    pub open spec fn slot_mirrors(self, n: int, p: int) -> bool {
        self.owners[n].props[p].style == styled(self.owners[n].style, p as usize)
    }

    /// Every style slot mirrors its owner's style. This holds between
    /// operations; it does not hold while a style is being applied, setter
    /// by setter.
    pub open spec fn mirrored(self) -> bool {
        forall|n: int, p: int|
            0 <= n < self.owners.len() && 0 <= p < self.prop_layout.len()
                ==> #[trigger] self.slot_mirrors(n, p)
    }

    pub open spec fn event_ok(self, n: int, e: int) -> bool {
        let s = self.owners[n].events[e];
        &&& s.bubble == self.event_layout[e]
        &&& s.wf()
        &&& all_below(s.handlers, self.next_handler)
    }

    pub open spec fn vec_ok(self, n: int, v: int) -> bool {
        let s = self.owners[n].vecs[v];
        &&& s.wf()
        &&& all_below(s.changed_handlers, self.next_handler)
        &&& all_below(s.removed_items_handlers, self.next_handler)
        &&& all_below(s.inserted_items_handlers, self.next_handler)
    }

    /// The `i`-th child of `n` comes after `n` and names `n` as its parent.
    pub open spec fn child_ok(self, n: int, i: int) -> bool {
        let c = self.owners[n].children[i];
        &&& n < c < self.owners.len()
        &&& self.owners[c as int].parent == Some(n as usize)
    }

    pub open spec fn style_ok(self, n: int) -> bool {
        match self.owners[n].style {
            Some(s) => {
                &&& sorted_by_offset(s)
                &&& forall|i: int| 0 <= i < s.len() ==> #[trigger] s[i].0 < self.prop_layout.len()
            },
            None => true,
        }
    }

    pub open spec fn parent_ok(self, n: int) -> bool {
        match self.owners[n].parent {
            Some(q) => q < n && self.owners[q as int].children.contains(n as usize),
            None => true,
        }
    }

    /// The owner `n` stands soundly in the hierarchy: after its parent and
    /// among the parent's children, before its own children, each of which
    /// it has once.
    pub open spec fn hierarchy_ok(self, n: int) -> bool {
        let o = self.owners[n];
        &&& forall|i: int| 0 <= i < o.children.len() ==> #[trigger] self.child_ok(n, i)
        &&& forall|i: int, j: int|
            0 <= i < j < o.children.len() ==> o.children[i] != o.children[j]
        &&& self.parent_ok(n)
    }

    pub open spec fn owner_ok(self, n: int) -> bool {
        let o = self.owners[n];
        &&& o.props.len() == self.prop_layout.len()
        &&& o.events.len() == self.event_layout.len()
        &&& o.vecs.len() == self.vec_count
        &&& forall|p: int| 0 <= p < o.props.len() ==> #[trigger] self.prop_ok(n, p)
        &&& forall|e: int| 0 <= e < o.events.len() ==> #[trigger] self.event_ok(n, e)
        &&& forall|v: int| 0 <= v < o.vecs.len() ==> #[trigger] self.vec_ok(n, v)
        &&& self.hierarchy_ok(n)
        &&& self.style_ok(n)
    }

    /// The part of the invariant that holds at every moment: every owner
    /// has the layout's slots, the owners form a forest in which a child
    /// comes after its parent, each style is sorted and sets properties of
    /// the layout, and no registration carries an identifier that is still
    /// to be given out.
    pub open spec fn base_wf(self) -> bool {
        &&& self.owners.len() <= usize::MAX
        &&& forall|n: int| 0 <= n < self.owners.len() ==> #[trigger] self.owner_ok(n)
    }

    /// The store's invariant: what holds at every moment, and each style is
    /// mirrored in its owner's style slots.
    pub open spec fn wf(self) -> bool {
        &&& self.base_wf()
        &&& self.mirrored()
    }

    /// The effective value of the property `p` on the owner `n`: the local
    /// value, else the style's, else, for an inheriting property, the
    /// parent's effective value, else the default.
    pub open spec fn current_value(self, p: int, n: int) -> T
        decreases n, 2int,
    {
        match self.owners[n].props[p].local {
            Some(v) => v,
            None => self.non_local_value(p, n),
        }
    }

    /// The effective value that the owner `n` would have without its local
    /// value.
    pub open spec fn non_local_value(self, p: int, n: int) -> T
        decreases n, 1int,
    {
        match self.owners[n].props[p].style {
            Some(v) => v,
            None => self.unstyled_non_local_value(p, n),
        }
    }

    /// The effective value that the owner `n` would have without its local
    /// value and without its style.
    pub open spec fn unstyled_non_local_value(self, p: int, n: int) -> T
        decreases n, 0int,
    {
        let e = self.owners[n].props[p];
        if e.inherits {
            match self.owners[n].parent {
                Some(q) => if 0 <= q < n {
                    self.current_value(p, q as int)
                } else {
                    e.default
                },
                None => e.default,
            }
        } else {
            e.default
        }
    }

    /// The owner `n` and those above it, from `n` upwards.
    pub open spec fn self_and_parents(self, n: int) -> Seq<usize>
        decreases n,
    {
        match self.owners[n].parent {
            Some(q) => if 0 <= q < n {
                seq![n as usize] + self.self_and_parents(q as int)
            } else {
                seq![n as usize]
            },
            None => seq![n as usize],
        }
    }

    /// The last child of the owner `n`, if it has children.
    pub open spec fn last_child(self, n: int) -> Option<usize> {
        let kids = self.owners[n].children;
        if kids.len() > 0 {
            Some(kids.last())
        } else {
            None
        }
    }

    /// The owner that comes after `n` among the children of its parent,
    /// where the first child comes after the last; `n` itself where it has
    /// no parent.
    pub open spec fn next(self, n: int) -> usize {
        match self.owners[n].parent {
            Some(q) => {
                let kids = self.owners[q as int].children;
                let k = kids.index_of(n as usize);
                if k + 1 < kids.len() {
                    kids[k + 1]
                } else {
                    kids[0]
                }
            },
            None => n as usize,
        }
    }

    /// Whether a handler of the property `p` is registered on an owner below
    /// `n`, looking at the children of `n` from the `i`-th on and at all that
    /// is below them.
    pub open spec fn listens_below(self, p: int, n: int, i: int) -> bool
        decreases self.owners.len() - n, self.owners[n].children.len() - i,
    {
        if 0 <= n < self.owners.len() && 0 <= i < self.owners[n].children.len() {
            let c = self.owners[n].children[i] as int;
            let here = n < c < self.owners.len() && (self.owners[c].props[p].has_own_handlers()
                || self.listens_below(p, c, 0));
            here || self.listens_below(p, n, i + 1)
        } else {
            false
        }
    }

    /// The calls owed to the handlers that the owner `n` itself has for the
    /// property `p`: the value handlers first, then the change handlers.
    pub open spec fn notes_at(self, p: int, n: int, change: Change<T>) -> Seq<Notification<T>> {
        let e = self.owners[n].props[p];
        value_notes(n, e.value_handlers, change.pair().1) + change_notes(
            n,
            e.change_handlers,
            change,
        )
    }

    /// The calls owed below `n` when the effective value of `p` changes on
    /// `n`, for the children of `n` from the `i`-th on: a child that
    /// overrides the property is passed over with all that is below it; any
    /// other child is told, and then what is below it.
    pub open spec fn notes_below(self, p: int, n: int, change: Change<T>, i: int) -> Seq<
        Notification<T>,
    >
        decreases self.owners.len() - n, self.owners[n].children.len() - i,
    {
        if 0 <= n < self.owners.len() && 0 <= i < self.owners[n].children.len() {
            let c = self.owners[n].children[i] as int;
            let here = if n < c < self.owners.len() && !self.owners[c].props[p].overrides() {
                self.notes_at(p, c, change) + self.notes_below(p, c, change, 0)
            } else {
                Seq::empty()
            };
            here + self.notes_below(p, n, change, i + 1)
        } else {
            Seq::empty()
        }
    }

    /// The calls owed when the effective value of `p` changes on `n`: to the
    /// owner's own handlers, and for an inheriting property to those below.
    pub open spec fn notes(self, p: int, n: int, change: Change<T>) -> Seq<Notification<T>> {
        self.notes_at(p, n, change) + if self.owners[n].props[p].inherits {
            self.notes_below(p, n, change, 0)
        } else {
            Seq::empty()
        }
    }

    /// The calls owed for a change that may not have happened.
    pub open spec fn notes_if(self, p: int, n: int, change: Option<Change<T>>) -> Seq<
        Notification<T>,
    > {
        match change {
            Some(c) => self.notes(p, n, c),
            None => Seq::empty(),
        }
    }

    /// Whether a change of `p` on `n` has anybody to tell, on `n` or below,
    /// going by the caches `cs`.
    pub open spec fn interested(self, cs: Seq<Seq<Option<bool>>>, n: int, p: int) -> bool {
        cs[n][p] == Some(true) || self.owners[n].props[p].has_own_handlers()
    }

    pub open spec fn child_interested(
        self,
        cs: Seq<Seq<Option<bool>>>,
        n: int,
        p: int,
        i: int,
    ) -> bool {
        self.interested(cs, self.owners[n].children[i] as int, p)
    }

    /// Whether some child of `n` has anybody to tell of a change of `p`,
    /// going by the caches `cs`.
    pub open spec fn some_child_interested(
        self,
        cs: Seq<Seq<Option<bool>>>,
        n: int,
        p: int,
    ) -> bool {
        exists|i: int|
            0 <= i < self.owners[n].children.len() && #[trigger] self.child_interested(cs, n, p, i)
    }

    /// The cache of an inheriting property `p` on `n` says whether some child
    /// of `n` has anybody to tell; a property that does not inherit has none.
    pub open spec fn cache_ok(self, cs: Seq<Seq<Option<bool>>>, n: int, p: int) -> bool {
        match cs[n][p] {
            Some(b) => self.owners[n].props[p].inherits && b == self.some_child_interested(
                cs,
                n,
                p,
            ),
            None => !self.owners[n].props[p].inherits,
        }
    }

    pub open spec fn caches_shaped(self, cs: Seq<Seq<Option<bool>>>) -> bool {
        &&& cs.len() == self.owners.len()
        &&& forall|n: int| 0 <= n < cs.len() ==> (#[trigger] cs[n]).len() == self.prop_layout.len()
    }

    /// Every cache in `cs` is right for this store.
    pub open spec fn caches_ok(self, cs: Seq<Seq<Option<bool>>>) -> bool {
        &&& self.caches_shaped(cs)
        &&& forall|n: int, p: int|
            0 <= n < self.owners.len() && 0 <= p < self.prop_layout.len()
                ==> #[trigger] self.cache_ok(cs, n, p)
    }

    /// Every cache in `cs` is right for this store, but perhaps that of the
    /// inheriting property `q` on `m`.
    pub open spec fn caches_ok_except(self, cs: Seq<Seq<Option<bool>>>, m: int, q: int) -> bool {
        &&& self.caches_shaped(cs)
        &&& cs[m][q].is_some()
        &&& self.owners[m].props[q].inherits
        &&& forall|n: int, p: int|
            0 <= n < self.owners.len() && 0 <= p < self.prop_layout.len() && !(n == m && p == q)
                ==> #[trigger] self.cache_ok(cs, n, p)
    }

    /// The caches of an owner as it is made.
    pub open spec fn fresh_caches(self) -> Seq<Option<bool>> {
        Seq::new(
            self.prop_layout.len(),
            |p: int| if self.prop_layout[p].1 { Some(false) } else { None },
        )
    }

    /// An owner as it is made: with the layout's slots, each as it is made,
    /// without children, style or bindings.
    pub open spec fn fresh_owner(self, parent: Option<usize>) -> OwnerState<T> {
        OwnerState {
            parent,
            children: Seq::empty(),
            props: Seq::new(
                self.prop_layout.len(),
                |p: int| PropState::fresh(self.prop_layout[p].0, self.prop_layout[p].1),
            ),
            events: Seq::new(
                self.event_layout.len(),
                |e: int| EventState { bubble: self.event_layout[e], handlers: Seq::empty() },
            ),
            vecs: Seq::new(
                self.vec_count,
                |v: int|
                    VecState {
                        items: Seq::empty(),
                        changed_handlers: Seq::empty(),
                        removed_items_handlers: Seq::empty(),
                        inserted_items_handlers: Seq::empty(),
                    },
            ),
            style: None,
            bindings: Seq::empty(),
        }
    }

    /// The store with one more owner, made as the last child of `parent`, or
    /// as a root where there is no parent.
    pub open spec fn with_owner(self, parent: Option<usize>) -> Self {
        let n = self.owners.len() as usize;
        let owners = match parent {
            Some(q) => self.owners.update(
                q as int,
                OwnerState {
                    children: self.owners[q as int].children.push(n),
                    ..self.owners[q as int]
                },
            ),
            None => self.owners,
        };
        StoreState { owners: owners.push(self.fresh_owner(parent)), ..self }
    }

    /// The store with the slot of `p` on `n` replaced by `e`.
    pub open spec fn with_prop(self, n: int, p: int, e: PropState<T>) -> Self {
        StoreState {
            owners: self.owners.update(
                n,
                OwnerState { props: self.owners[n].props.update(p, e), ..self.owners[n] },
            ),
            ..self
        }
    }

    /// The store after one more handler of the value of `p` is registered on
    /// `n`, under the identifier that was next.
    pub open spec fn with_value_handler(self, n: int, p: int) -> Self {
        let e = self.owners[n].props[p];
        StoreState {
            next_handler: (self.next_handler + 1) as u64,
            ..self.with_prop(
                n,
                p,
                PropState { value_handlers: e.value_handlers.push(self.next_handler), ..e },
            )
        }
    }

    /// The store after one more handler of changes of `p` is registered on
    /// `n`, under the identifier that was next.
    pub open spec fn with_change_handler(self, n: int, p: int) -> Self {
        let e = self.owners[n].props[p];
        StoreState {
            next_handler: (self.next_handler + 1) as u64,
            ..self.with_prop(
                n,
                p,
                PropState { change_handlers: e.change_handlers.push(self.next_handler), ..e },
            )
        }
    }

    /// The store after the handler `id` of the value of `p` on `n` is
    /// revoked.
    pub open spec fn without_value_handler(self, n: int, p: int, id: u64) -> Self {
        let e = self.owners[n].props[p];
        self.with_prop(n, p, PropState { value_handlers: without(e.value_handlers, id), ..e })
    }

    /// The store after the handler `id` of changes of `p` on `n` is revoked.
    pub open spec fn without_change_handler(self, n: int, p: int, id: u64) -> Self {
        let e = self.owners[n].props[p];
        self.with_prop(n, p, PropState { change_handlers: without(e.change_handlers, id), ..e })
    }

    /// The slot of the collection `v` on the owner `n`.
    pub open spec fn vec(self, n: int, v: int) -> VecState<T> {
        self.owners[n].vecs[v]
    }

    /// The slot of the event `e` on the owner `n`.
    pub open spec fn event(self, n: int, e: int) -> EventState {
        self.owners[n].events[e]
    }

    /// The store with the slot of the collection `v` on `n` replaced by `e`.
    pub open spec fn with_vec(self, n: int, v: int, e: VecState<T>) -> Self {
        StoreState {
            owners: self.owners.update(
                n,
                OwnerState { vecs: self.owners[n].vecs.update(v, e), ..self.owners[n] },
            ),
            ..self
        }
    }

    /// The store with the items of the collection `v` on `n` replaced by
    /// `items`.
    pub open spec fn with_items(self, n: int, v: int, items: Seq<T>) -> Self {
        self.with_vec(n, v, VecState { items, ..self.owners[n].vecs[v] })
    }

    /// The store with the slot of the event `e` on `n` replaced by `x`.
    pub open spec fn with_event(self, n: int, e: int, x: EventState) -> Self {
        StoreState {
            owners: self.owners.update(
                n,
                OwnerState { events: self.owners[n].events.update(e, x), ..self.owners[n] },
            ),
            ..self
        }
    }

    /// The store with the next identifier given out.
    pub open spec fn with_next(self) -> Self {
        StoreState { next_handler: (self.next_handler + 1) as u64, ..self }
    }

    /// The store after one more handler of the event `e` is registered on
    /// `n`, under the identifier that was next.
    pub open spec fn with_event_handler(self, n: int, e: int) -> Self {
        let x = self.owners[n].events[e];
        self.with_event(
            n,
            e,
            EventState { handlers: x.handlers.push(self.next_handler), ..x },
        ).with_next()
    }

    /// The store after the handler `id` of the event `e` on `n` is revoked.
    pub open spec fn without_event_handler(self, n: int, e: int, id: u64) -> Self {
        let x = self.owners[n].events[e];
        self.with_event(n, e, EventState { handlers: without(x.handlers, id), ..x })
    }

    /// The store with the local value of `p` on `n` replaced by `value`.
    pub open spec fn with_local(self, n: int, p: int, value: Option<T>) -> Self {
        self.with_prop(n, p, PropState { local: value, ..self.owners[n].props[p] })
    }

    /// The store with the binding of `p` on `n` replaced by `binding`.
    pub open spec fn with_binding(self, n: int, p: int, binding: Option<Binding>) -> Self {
        self.with_prop(n, p, PropState { binding, ..self.owners[n].props[p] })
    }

    /// The change that replacing the local value of `p` on `n` by `value`
    /// makes to the effective value, if it makes one.
    pub open spec fn local_change(self, p: int, n: int, value: Option<T>) -> Option<Change<T>> {
        let old_local = self.owners[n].props[p].local;
        let rest = self.non_local_value(p, n);
        slot_change(old_local, value, rest)
    }

    /// What a new handler of changes of `p` on `n` is told at once: the
    /// change from the default to the effective value, if they differ.
    pub open spec fn replayed_change(self, p: int, n: int) -> Option<Change<T>> {
        let default = self.owners[n].props[p].default;
        let current = self.current_value(p, n);
        if current == default {
            None
        } else {
            Some(Change::of(default, current))
        }
    }

    /// The change that replacing the style's value of `p` on `n` by `value`
    /// makes to the effective value, if it makes one: none while a local
    /// value hides the style.
    pub open spec fn style_change(self, p: int, n: int, value: Option<T>) -> Option<Change<T>> {
        let e = self.owners[n].props[p];
        if e.local.is_some() {
            None
        } else {
            slot_change(e.style, value, self.unstyled_non_local_value(p, n))
        }
    }
}

/// The change of an effective value when the slot that decides it goes from
/// `before` to `after`, where `rest` is the value that shows while the slot
/// is empty: none if the slot stays as it is or the value that shows stays
/// the same.
pub open spec fn slot_change<T>(before: Option<T>, after: Option<T>, rest: T) -> Option<Change<T>> {
    let shown_before = match before {
        Some(v) => v,
        None => rest,
    };
    let shown_after = match after {
        Some(v) => v,
        None => rest,
    };
    if shown_before == shown_after {
        None
    } else {
        Some(Change::of(shown_before, shown_after))
    }
}


/// A sound store stays sound when it gets one more owner.
pub proof fn lemma_with_owner_wf<T>(s: StoreState<T>, parent: Option<usize>)
    requires
        s.wf(),
        s.owners.len() < usize::MAX,
        match parent {
            Some(q) => s.has_owner(q as int),
            None => true,
        },
    ensures
        s.with_owner(parent).wf(),
{
    let t = s.with_owner(parent);
    let n = s.owners.len() as int;
    assert forall|m: int, p: int|
        0 <= m < t.owners.len() && 0 <= p < t.prop_layout.len() implies #[trigger] t.slot_mirrors(
        m,
        p,
    ) by {
        if m < n {
            assert(s.slot_mirrors(m, p));
            assert(s.owner_ok(m));
        }
    }
    assert forall|m: int| 0 <= m < t.owners.len() implies #[trigger] t.owner_ok(m) by {
        if m < n {
            assert(s.owner_ok(m));
            let o = t.owners[m];
            assert forall|p: int| 0 <= p < o.props.len() implies #[trigger] t.prop_ok(m, p) by {
                assert(s.prop_ok(m, p));
            }
            assert forall|e: int| 0 <= e < o.events.len() implies #[trigger] t.event_ok(m, e) by {
                assert(s.event_ok(m, e));
            }
            assert forall|v: int| 0 <= v < o.vecs.len() implies #[trigger] t.vec_ok(m, v) by {
                assert(s.vec_ok(m, v));
            }
            assert forall|i: int| 0 <= i < o.children.len() implies #[trigger] t.child_ok(
                m,
                i,
            ) by {
                if i < s.owners[m].children.len() {
                    assert(s.child_ok(m, i));
                }
            }
            assert forall|i: int, j: int| 0 <= i < j < o.children.len() implies o.children[i]
                != o.children[j] by {
                if j == s.owners[m].children.len() {
                    assert(s.child_ok(m, i));
                }
            }
            assert(t.parent_ok(m)) by {
                match s.owners[m].parent {
                    Some(q) => {
                        let k = choose|k: int|
                            0 <= k < s.owners[q as int].children.len()
                                && s.owners[q as int].children[k] == m as usize;
                        assert(t.owners[q as int].children[k] == m as usize);
                    },
                    None => {},
                }
            }
        } else {
            let o = t.owners[m];
            assert forall|p: int| 0 <= p < o.props.len() implies #[trigger] t.prop_ok(m, p) by {
            }
            assert(t.parent_ok(m)) by {
                match parent {
                    Some(q) => {
                        let k = s.owners[q as int].children.len() as int;
                        assert(t.owners[q as int].children[k] == m as usize);
                    },
                    None => {},
                }
            }
        }
    }
}

/// Right caches stay right when the store gets one more owner with caches
/// as they are made.
pub proof fn lemma_with_owner_caches<T>(
    s: StoreState<T>,
    cs: Seq<Seq<Option<bool>>>,
    parent: Option<usize>,
)
    requires
        s.wf(),
        s.caches_ok(cs),
        s.owners.len() <= usize::MAX,
        match parent {
            Some(q) => s.has_owner(q as int),
            None => true,
        },
    ensures
        s.with_owner(parent).caches_ok(cs.push(s.fresh_caches())),
{
    let t = s.with_owner(parent);
    let ct = cs.push(s.fresh_caches());
    let len = s.owners.len() as int;
    assert forall|n: int, p: int|
        0 <= n < t.owners.len() && 0 <= p < t.prop_layout.len() implies #[trigger] t.cache_ok(
        ct,
        n,
        p,
    ) by {
        if n < len {
            assert(s.cache_ok(cs, n, p));
            assert(s.owner_ok(n));
            assert(s.prop_ok(n, p));
            let kids = t.owners[n].children;
            let old_kids = s.owners[n].children;
            assert forall|i: int| 0 <= i < old_kids.len() implies t.child_interested(ct, n, p, i)
                == s.child_interested(cs, n, p, i) by {
                assert(s.child_ok(n, i));
            }
            if t.some_child_interested(ct, n, p) {
                let i = choose|i: int|
                    0 <= i < kids.len() && #[trigger] t.child_interested(ct, n, p, i);
                assert(i < old_kids.len());
                assert(s.child_interested(cs, n, p, i));
            }
            if s.some_child_interested(cs, n, p) {
                let i = choose|i: int|
                    0 <= i < old_kids.len() && #[trigger] s.child_interested(cs, n, p, i);
                assert(t.child_interested(ct, n, p, i));
            }
        }
    }
}

} // verus!
