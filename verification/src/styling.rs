//! Applying a style to an owner.

use crate::cache::{lemma_caches_frame, lemma_same_hierarchy_wf, lemma_with_prop, same_listeners};
use crate::laws::lemma_resolution_frame;
use crate::change::{eq_is_identity, Change};
use crate::entry::PropState;
use crate::model::{OwnerState, StoreState};
use crate::notify::{Glob, Notification};
use crate::prop::{slot_change_of, DepProp};
use crate::store::Store;
use crate::style::{
    has_offset, lemma_value_at_index, sorted_by_offset, style_view, styled, Setter, Style,
};
use vstd::prelude::*;

verus! {

/// Whether `style` can be applied to an owner with `props` properties: it is
/// sorted, and every setter is for one of the properties.
pub open spec fn style_fits<T>(style: Option<Seq<(usize, T)>>, props: nat) -> bool {
    match style {
        Some(s) => {
            &&& sorted_by_offset(s)
            &&& forall|i: int| 0 <= i < s.len() ==> #[trigger] s[i].0 < props
        },
        None => true,
    }
}

/// The store with the style of the owner `n` replaced by `style` and the
/// owner's style slots by `slots`.
pub open spec fn restyled<T>(
    s: StoreState<T>,
    n: int,
    style: Option<Seq<(usize, T)>>,
    slots: Seq<Option<T>>,
) -> StoreState<T> {
    let o = s.owners[n];
    StoreState {
        owners: s.owners.update(
            n,
            OwnerState {
                style,
                props: Seq::new(o.props.len(), |p: int| PropState { style: slots[p], ..o.props[p] }),
                ..o
            },
        ),
        ..s
    }
}

/// What the style slots of an owner with `props` properties hold when they
/// mirror `style`.
pub open spec fn mirror_of<T>(style: Option<Seq<(usize, T)>>, props: nat) -> Seq<Option<T>> {
    Seq::new(props, |p: int| styled(style, p as usize))
}

/// The store with `style` applied to the owner `n` in place of the style
/// that was applied: the owner's style slots hold what `style` sets, and
/// nothing where it sets nothing.
pub open spec fn with_style<T>(s: StoreState<T>, n: int, style: Option<Seq<(usize, T)>>) -> StoreState<
    T,
> {
    restyled(s, n, style, mirror_of(style, s.owners[n].props.len()))
}

/// The store with the style slot of the property `p` on the owner `n`
/// replaced by `value`, whatever the owner's style says.
pub open spec fn with_style_slot<T>(s: StoreState<T>, n: int, p: int, value: Option<T>) -> StoreState<
    T,
> {
    s.with_prop(n, p, PropState { style: value, ..s.prop(n, p) })
}

/// The changes queued for the setters of the old style from the `i`-th on:
/// for each whose property the new style does not set, the change that
/// emptying the property's style slot makes, if it makes one.
pub open spec fn unapply_queue<T>(
    s: StoreState<T>,
    n: int,
    old_style: Seq<(usize, T)>,
    new_style: Option<Seq<(usize, T)>>,
    i: int,
) -> Seq<(usize, Change<T>)>
    decreases old_style.len() - i,
{
    if 0 <= i < old_style.len() {
        let p = old_style[i].0;
        let here = if styled(new_style, p).is_none() {
            match s.style_change(p as int, n, None) {
                Some(c) => seq![(p, c)],
                None => Seq::empty(),
            }
        } else {
            Seq::empty()
        };
        here + unapply_queue(s, n, old_style, new_style, i + 1)
    } else {
        Seq::empty()
    }
}

/// The changes queued for the setters of the new style from the `j`-th on:
/// for each the change that putting its value in the property's style slot
/// makes, if it makes one.
pub open spec fn apply_queue<T>(s: StoreState<T>, n: int, new_style: Seq<(usize, T)>, j: int) -> Seq<
    (usize, Change<T>),
>
    decreases new_style.len() - j,
{
    if 0 <= j < new_style.len() {
        let p = new_style[j].0;
        let here = match s.style_change(p as int, n, Some(new_style[j].1)) {
            Some(c) => seq![(p, c)],
            None => Seq::empty(),
        };
        here + apply_queue(s, n, new_style, j + 1)
    } else {
        Seq::empty()
    }
}

/// The changes that applying `style` to the owner `n` queues: those of
/// taking the old style's setters away first, in the old style's order, then
/// those of the new style's setters, in the new style's order.
pub open spec fn style_queue<T>(s: StoreState<T>, n: int, style: Option<Seq<(usize, T)>>) -> Seq<
    (usize, Change<T>),
> {
    let removals = match s.owners[n].style {
        Some(old_style) => unapply_queue(s, n, old_style, style, 0),
        None => Seq::empty(),
    };
    let insertions = match style {
        Some(new_style) => apply_queue(s, n, new_style, 0),
        None => Seq::empty(),
    };
    removals + insertions
}

/// The calls owed for the queued changes from the `k`-th on, in the order
/// of the queue, in the store `s`.
pub open spec fn queue_notes<T>(s: StoreState<T>, n: int, queue: Seq<(usize, Change<T>)>, k: int) -> Seq<
    Notification<T>,
>
    decreases queue.len() - k,
{
    if 0 <= k < queue.len() {
        s.notes(queue[k].0 as int, n, queue[k].1) + queue_notes(s, n, queue, k + 1)
    } else {
        Seq::empty()
    }
}

/// A store with right caches that is sound at every moment stays so when
/// the style of one owner is replaced by a fitting one and the owner's style
/// slots by others. Where the new slots mirror the new style, and the style
/// slots mirrored the styles before, they all do after.
pub proof fn lemma_restyled<T>(
    s: StoreState<T>,
    cs: Seq<Seq<Option<bool>>>,
    n: int,
    style: Option<Seq<(usize, T)>>,
    slots: Seq<Option<T>>,
)
    requires
        s.base_wf(),
        s.caches_ok(cs),
        s.has_owner(n),
        style_fits(style, s.prop_layout.len()),
        slots.len() == s.prop_layout.len(),
    ensures
        restyled(s, n, style, slots).base_wf(),
        restyled(s, n, style, slots).caches_ok(cs),
        s.mirrored() && slots == mirror_of(style, s.prop_layout.len()) ==> restyled(
            s,
            n,
            style,
            slots,
        ).mirrored(),
{
    let t = restyled(s, n, style, slots);
    assert(s.owner_ok(n));
    lemma_same_hierarchy_wf(s, t);
    assert forall|m: int| 0 <= m < t.owners.len() implies #[trigger] t.owner_ok(m) by {
        assert(s.owner_ok(m));
        assert(t.hierarchy_ok(m));
        let o = t.owners[m];
        assert forall|q: int| 0 <= q < o.props.len() implies #[trigger] t.prop_ok(m, q) by {
            assert(s.prop_ok(m, q));
        }
        assert forall|q: int| 0 <= q < o.events.len() implies #[trigger] t.event_ok(m, q) by {
            assert(s.event_ok(m, q));
        }
        assert forall|q: int| 0 <= q < o.vecs.len() implies #[trigger] t.vec_ok(m, q) by {
            assert(s.vec_ok(m, q));
        }
    }
    assert(same_listeners(s, t)) by {
        assert forall|m: int, q: int|
            0 <= m < s.owners.len() && 0 <= q < s.prop_layout.len() implies {
            &&& (#[trigger] t.prop(m, q)).inherits == s.prop(m, q).inherits
            &&& t.prop(m, q).has_own_handlers() == s.prop(m, q).has_own_handlers()
        } by {
            assert(s.owner_ok(m));
        }
    }
    lemma_caches_frame(s, t, cs);
    if s.mirrored() && slots == mirror_of(style, s.prop_layout.len()) {
        assert forall|m: int, q: int|
            0 <= m < t.owners.len() && 0 <= q < t.prop_layout.len() implies #[trigger] t.slot_mirrors(
            m,
            q,
        ) by {
            assert(s.slot_mirrors(m, q));
            assert(s.owner_ok(m));
        }
    }
}

/// A sound store with right caches stays so when a fitting style is applied
/// to one of its owners.
pub proof fn lemma_with_style_wf<T>(
    s: StoreState<T>,
    cs: Seq<Seq<Option<bool>>>,
    n: int,
    style: Option<Seq<(usize, T)>>,
)
    requires
        s.wf(),
        s.caches_ok(cs),
        s.has_owner(n),
        style_fits(style, s.prop_layout.len()),
    ensures
        with_style(s, n, style).wf(),
        with_style(s, n, style).caches_ok(cs),
{
    assert(s.owner_ok(n));
    lemma_restyled(s, cs, n, style, mirror_of(style, s.prop_layout.len()));
}

/// Replacing one style slot after the style slots is replacing the style
/// slots by those with that slot replaced.
pub proof fn lemma_restyled_again<T>(
    s: StoreState<T>,
    n: int,
    style: Option<Seq<(usize, T)>>,
    slots: Seq<Option<T>>,
    p: int,
    value: Option<T>,
)
    requires
        s.has_owner(n),
        slots.len() == s.owners[n].props.len(),
        0 <= p < slots.len(),
    ensures
        with_style_slot(restyled(s, n, style, slots), n, p, value) == restyled(
            s,
            n,
            style,
            slots.update(p, value),
        ),
{
    let a = with_style_slot(restyled(s, n, style, slots), n, p, value);
    let b = restyled(s, n, style, slots.update(p, value));
    assert(a.owners[n].props =~= b.owners[n].props);
    assert(a.owners =~= b.owners);
}

/// Replacing the style after the style and the style slots is replacing
/// both at once.
pub proof fn lemma_restyled_twice<T>(
    s: StoreState<T>,
    n: int,
    style: Option<Seq<(usize, T)>>,
    slots: Seq<Option<T>>,
    next: Option<Seq<(usize, T)>>,
)
    requires
        s.has_owner(n),
        slots.len() == s.owners[n].props.len(),
    ensures
        restyled(restyled(s, n, style, slots), n, next, slots) == restyled(s, n, next, slots),
{
    let c = restyled(restyled(s, n, style, slots), n, next, slots);
    let d = restyled(s, n, next, slots);
    assert(c.owners[n].props =~= d.owners[n].props);
    assert(c.owners =~= d.owners);
}

/// The change that a write to a style slot makes does not depend on the
/// owner's style, nor on any style slot of the owner but the one written.
pub proof fn lemma_style_change_frame<T>(
    s: StoreState<T>,
    n: int,
    style: Option<Seq<(usize, T)>>,
    slots: Seq<Option<T>>,
    p: int,
    value: Option<T>,
)
    requires
        s.base_wf(),
        s.has_owner(n),
        s.has_prop(p),
        slots.len() == s.prop_layout.len(),
        slots[p] == s.prop(n, p).style,
    ensures
        restyled(s, n, style, slots).style_change(p, n, value) == s.style_change(p, n, value),
{
    let t = restyled(s, n, style, slots);
    assert(s.owner_ok(n));
    lemma_resolution_frame(s, t, p, n);
}

impl<T: Copy> Setter<T> {
    /// Applies this setter to `obj`, or takes it away (`unapply`): puts the
    /// setter's value in the style slot of its property, or empties the
    /// slot, also while a local value hides the style. Returns the change
    /// that this makes to the effective value, if it makes one: none while
    /// a local value hides the style, and none where the value that shows
    /// stays the same. No handler is told yet: the calls for the change are
    /// those that `DepProp::notify` gives once the owner's style is in
    /// place.
    ///
    /// This is one step of applying a style. It leaves the slot as written
    /// whatever the owner's style says, so after it the store is sound only
    /// as it is at every moment, until the owner's style is put in place.
    pub fn un_apply(&self, store: &mut Store<T>, obj: Glob, unapply: bool) -> (r: Option<Change<T>>) where
        T: PartialEq,

        requires
            old(store).base_wf(),
            old(store)@.has_owner(obj.id as int),
            old(store)@.has_prop(self.pair().0 as int),
            eq_is_identity::<T>(),
        ensures
            final(store).base_wf(),
            final(store)@ == with_style_slot(
                old(store)@,
                obj.id as int,
                self.pair().0 as int,
                if unapply {
                    None
                } else {
                    Some(self.pair().1)
                },
            ),
            r == old(store)@.style_change(
                self.pair().0 as int,
                obj.id as int,
                if unapply {
                    None
                } else {
                    Some(self.pair().1)
                },
            ),
    {
        let ghost before = *store;
        let ghost s = store@;
        let ghost n = obj.id as int;
        let ghost p = self.prop.index();
        proof {
            assert(s.owner_ok(n));
            assert(s.prop_ok(n, p));
        }
        let value = if unapply {
            None
        } else {
            Some(self.value)
        };
        let rest = self.prop.unstyled_non_local_value(store, obj);
        let old_slot = store.owners[obj.id].props[self.prop.offset].style;
        let hidden = store.owners[obj.id].props[self.prop.offset].local.is_some();
        store.owners[obj.id].props[self.prop.offset].style = value;
        proof {
            let e = PropState { style: value, ..s.prop(n, p) };
            assert(store@.owners[n].props =~= s.owners[n].props.update(p, e));
            assert(store@.owners =~= s.owners.update(
                n,
                OwnerState { props: s.owners[n].props.update(p, e), ..s.owners[n] },
            ));
            assert(store@ == with_style_slot(s, n, p, value));
            assert(store.caches() =~~= before.caches());
            lemma_with_prop(s, before.caches(), n, p, e);
        }
        if hidden {
            return None;
        }
        slot_change_of(old_slot, value, rest)
    }
}

impl Glob {
    /// Applies `style` to the owner in place of the style that was applied
    /// to it, and returns that style together with the calls that this owes
    /// to handlers, in the order in which they are to be made.
    ///
    /// The old style is taken out. Each setter of the old style whose
    /// property the new style does not set is taken away, then each setter
    /// of the new style is applied; the changes that this makes are queued.
    /// Then the new style is put in place. The calls are those owed for the
    /// queued changes in their order, in the store as it is then.
    pub fn apply_style<T: Copy + PartialEq>(
        self,
        store: &mut Store<T>,
        style: Option<Style<T>>,
    ) -> (r: (Option<Style<T>>, Vec<Notification<T>>))
        requires
            old(store).wf(),
            old(store)@.has_owner(self.id as int),
            style_fits(style_view(style), old(store)@.prop_layout.len()),
            eq_is_identity::<T>(),
        ensures
            final(store).wf(),
            final(store)@ == with_style(old(store)@, self.id as int, style_view(style)),
            style_view(r.0) == old(store)@.owners[self.id as int].style,
            r.1@ == queue_notes(
                final(store)@,
                self.id as int,
                style_queue(old(store)@, self.id as int, style_view(style)),
                0,
            ),
    {
        let ghost before = *store;
        let ghost s = store@;
        let ghost n = self.id as int;
        let ghost new_view = style_view(style);
        let ghost old_view = s.owners[n].style;
        let ghost count = s.prop_layout.len();
        let props = store.prop_layout.len();
        proof {
            assert(s.owner_ok(n));
            assert(count == props);
        }
        let mut old_style: Option<Style<T>> = None;
        std::mem::swap(&mut old_style, &mut store.owners[self.id].core.style);
        let ghost mut slots: Seq<Option<T>> = mirror_of(old_view, count);
        proof {
            let t = restyled(s, n, None, slots);
            assert(store@.owners[n].props =~= t.owners[n].props) by {
                assert forall|p: int| 0 <= p < count implies store@.owners[n].props[p]
                    == t.owners[n].props[p] by {
                    assert(s.slot_mirrors(n, p));
                }
            }
            assert(store@.owners[n].events =~= t.owners[n].events);
            assert(store@.owners[n].vecs =~= t.owners[n].vecs);
            assert(store@.owners[n] == t.owners[n]);
            assert(store@.owners =~= t.owners);
            assert(store@ == t);
            assert(store.caches() =~~= before.caches());
            lemma_restyled(s, before.caches(), n, None, slots);
        }
        let mut queue: Vec<(usize, Change<T>)> = Vec::new();
        match &old_style {
            Some(old_setters) => {
                let mut i: usize = 0;
                while i < old_setters.len()
                    invariant
                        s.wf(),
                        n == self.id,
                        s.has_owner(n),
                        count == s.prop_layout.len(),
                        count <= usize::MAX,
                        eq_is_identity::<T>(),
                        old_view == Some(old_setters@),
                        old_view == s.owners[n].style,
                        new_view == style_view(style),
                        style_fits(new_view, s.prop_layout.len()),
                        i <= old_setters@.len(),
                        store.base_wf(),
                        slots.len() == count,
                        store@ == restyled(s, n, None, slots),
                        forall|p: int|
                            0 <= p < slots.len() ==> #[trigger] slots[p] == if (exists|k: int|
                                0 <= k < i && old_setters@[k].0 == p) && styled(
                                new_view,
                                p as usize,
                            ).is_none() {
                                None
                            } else {
                                styled(old_view, p as usize)
                            },
                        forall|k: int| 0 <= k < queue@.len() ==> (#[trigger] queue@[k]).0
                            < s.prop_layout.len(),
                        queue@ + unapply_queue(s, n, old_setters@, new_view, i as int)
                            == unapply_queue(s, n, old_setters@, new_view, 0),
                    decreases old_setters@.len() - i,
                {
                    let setter = old_setters.setter(i);
                    let ghost q = old_setters@[i as int].0 as int;
                    proof {
                        assert(s.owner_ok(n));
                        assert(s.style_ok(n));
                        assert(old_setters@[i as int].0 < s.prop_layout.len());
                        // No earlier setter is for this property.
                        if exists|k: int| 0 <= k < i && old_setters@[k].0 == q {
                            let k = choose|k: int| 0 <= k < i && old_setters@[k].0 == q;
                            assert(old_setters@[k].0 < old_setters@[i as int].0);
                        }
                        assert(s.slot_mirrors(n, q));
                        assert(slots[q] == s.prop(n, q).style);
                    }
                    let in_new = match &style {
                        Some(new_style) => new_style.contains_prop(setter.prop),
                        None => false,
                    };
                    let ghost before_queue = queue@;
                    if !in_new {
                        let ghost old_slots = slots;
                        proof {
                            lemma_style_change_frame(s, n, None, old_slots, q, None);
                        }
                        match setter.un_apply(store, self, true) {
                            Some(c) => {
                                queue.push((setter.prop.offset, c));
                            },
                            None => {},
                        }
                        proof {
                            slots = old_slots.update(q, None);
                            lemma_restyled_again(s, n, None, old_slots, q, None);
                        }
                    }
                    proof {
                        let p = old_setters@[i as int].0;
                        let here = if styled(new_view, p).is_none() {
                            match s.style_change(p as int, n, None) {
                                Some(c) => seq![(p, c)],
                                None => Seq::empty(),
                            }
                        } else {
                            Seq::empty()
                        };
                        assert(queue@ =~= before_queue + here);
                        assert(before_queue + (here + unapply_queue(
                            s,
                            n,
                            old_setters@,
                            new_view,
                            i + 1,
                        )) =~= (before_queue + here) + unapply_queue(
                            s,
                            n,
                            old_setters@,
                            new_view,
                            i + 1,
                        ));
                        assert forall|p: int| 0 <= p < slots.len() implies #[trigger] slots[p]
                            == if (exists|k: int| 0 <= k < i + 1 && old_setters@[k].0 == p)
                            && styled(new_view, p as usize).is_none() {
                            None
                        } else {
                            styled(old_view, p as usize)
                        } by {
                            if p == q {
                                assert(0 <= i < i + 1 && old_setters@[i as int].0 == p);
                            } else {
                                if exists|k: int| 0 <= k < i + 1 && old_setters@[k].0 == p {
                                    let k = choose|k: int|
                                        0 <= k < i + 1 && old_setters@[k].0 == p;
                                    assert(0 <= k < i && old_setters@[k].0 == p);
                                }
                            }
                        }
                    }
                    i += 1;
                }
                proof {
                    assert(queue@ =~= unapply_queue(s, n, old_setters@, new_view, 0));
                }
            },
            None => {},
        }
        let ghost removals = queue@;
        proof {
            // What the slots hold once the old style is taken away.
            assert forall|p: int| 0 <= p < slots.len() implies #[trigger] slots[p] == if styled(
                new_view,
                p as usize,
            ).is_none() {
                None
            } else {
                styled(old_view, p as usize)
            } by {
                match old_view {
                    Some(os) => {
                        if has_offset(os, p as usize) {
                            let k = choose|k: int| 0 <= k < os.len() && #[trigger] os[k].0 == p as usize;
                            assert(0 <= k < os.len() && os[k].0 == p);
                        }
                    },
                    None => {},
                }
            }
        }
        let ghost cleared = slots;
        match &style {
            Some(new_setters) => {
                let mut j: usize = 0;
                while j < new_setters.len()
                    invariant
                        s.wf(),
                        n == self.id,
                        s.has_owner(n),
                        count == s.prop_layout.len(),
                        count <= usize::MAX,
                        eq_is_identity::<T>(),
                        old_view == s.owners[n].style,
                        new_view == Some(new_setters@),
                        style_fits(new_view, s.prop_layout.len()),
                        j <= new_setters@.len(),
                        store.base_wf(),
                        slots.len() == count,
                        cleared.len() == count,
                        store@ == restyled(s, n, None, slots),
                        forall|p: int|
                            0 <= p < cleared.len() ==> #[trigger] cleared[p] == if styled(
                                new_view,
                                p as usize,
                            ).is_none() {
                                None
                            } else {
                                styled(old_view, p as usize)
                            },
                        forall|p: int|
                            0 <= p < slots.len() ==> #[trigger] slots[p] == if exists|k: int|
                                0 <= k < j && new_setters@[k].0 == p {
                                styled(new_view, p as usize)
                            } else {
                                cleared[p]
                            },
                        forall|k: int| 0 <= k < queue@.len() ==> (#[trigger] queue@[k]).0
                            < s.prop_layout.len(),
                        queue@ + apply_queue(s, n, new_setters@, j as int) == removals
                            + apply_queue(s, n, new_setters@, 0),
                    decreases new_setters@.len() - j,
                {
                    let setter = new_setters.setter(j);
                    let ghost q = new_setters@[j as int].0 as int;
                    proof {
                        assert(s.owner_ok(n));
                        assert(new_setters@[j as int].0 < s.prop_layout.len());
                        lemma_value_at_index(new_setters@, j as int);
                        // No earlier setter is for this property.
                        if exists|k: int| 0 <= k < j && new_setters@[k].0 == q {
                            let k = choose|k: int| 0 <= k < j && new_setters@[k].0 == q;
                            assert(new_setters@[k].0 < new_setters@[j as int].0);
                        }
                        assert(s.slot_mirrors(n, q));
                        assert(cleared[q] == styled(old_view, q as usize));
                        assert(slots[q] == s.prop(n, q).style);
                    }
                    let ghost before_queue = queue@;
                    let ghost old_slots = slots;
                    proof {
                        lemma_style_change_frame(s, n, None, old_slots, q, Some(setter.value));
                    }
                    match setter.un_apply(store, self, false) {
                        Some(c) => {
                            queue.push((setter.prop.offset, c));
                        },
                        None => {},
                    }
                    proof {
                        slots = old_slots.update(q, Some(setter.value));
                        lemma_restyled_again(s, n, None, old_slots, q, Some(setter.value));
                        let p = new_setters@[j as int].0;
                        let here = match s.style_change(
                            p as int,
                            n,
                            Some(new_setters@[j as int].1),
                        ) {
                            Some(c) => seq![(p, c)],
                            None => Seq::empty(),
                        };
                        assert(queue@ =~= before_queue + here);
                        assert(before_queue + (here + apply_queue(s, n, new_setters@, j + 1)) =~= (
                        before_queue + here) + apply_queue(s, n, new_setters@, j + 1));
                        assert forall|p: int| 0 <= p < slots.len() implies #[trigger] slots[p]
                            == if exists|k: int| 0 <= k < j + 1 && new_setters@[k].0 == p {
                            styled(new_view, p as usize)
                        } else {
                            cleared[p]
                        } by {
                            if p == q {
                                assert(0 <= j < j + 1 && new_setters@[j as int].0 == p);
                            } else {
                                if exists|k: int| 0 <= k < j + 1 && new_setters@[k].0 == p {
                                    let k = choose|k: int|
                                        0 <= k < j + 1 && new_setters@[k].0 == p;
                                    assert(0 <= k < j && new_setters@[k].0 == p);
                                }
                            }
                        }
                    }
                    j += 1;
                }
                proof {
                    assert(queue@ =~= removals + apply_queue(s, n, new_setters@, 0));
                    assert forall|p: int| 0 <= p < slots.len() implies slots[p] == styled(
                        new_view,
                        p as usize,
                    ) by {
                        let ns = new_setters@;
                        if has_offset(ns, p as usize) {
                            let k = choose|k: int| 0 <= k < ns.len() && #[trigger] ns[k].0 == p as usize;
                            assert(0 <= k < ns.len() && ns[k].0 == p);
                        }
                    }
                }
            },
            None => {
                proof {
                    assert(queue@ =~= removals + Seq::<(usize, Change<T>)>::empty());
                }
            },
        }
        proof {
            assert(queue@ == style_queue(s, n, new_view));
            assert(slots =~= mirror_of(new_view, count));
        }
        let ghost mid = *store;
        store.owners[self.id].core.style = style;
        proof {
            let m = mid@;
            let t = restyled(m, n, new_view, slots);
            assert(store@.owners[n].props =~= t.owners[n].props);
            assert(store@.owners[n].events =~= t.owners[n].events);
            assert(store@.owners[n].vecs =~= t.owners[n].vecs);
            assert(store@.owners[n] == t.owners[n]);
            assert(store@.owners =~= t.owners);
            assert(store@ == t);
            lemma_restyled_twice(s, n, None, slots, new_view);
            assert(store@ == with_style(s, n, new_view));
            assert(store.caches() =~~= mid.caches());
            lemma_restyled(m, mid.caches(), n, new_view, slots);
            lemma_with_style_wf(s, before.caches(), n, new_view);
        }
        // The calls, in the store as it is now.
        let mut out: Vec<Notification<T>> = Vec::new();
        let ghost t = store@;
        let mut k: usize = 0;
        while k < queue.len()
            invariant
                store.wf(),
                t == store@,
                n == self.id,
                t.has_owner(n),
                t.prop_layout == s.prop_layout,
                k <= queue@.len(),
                forall|i: int| 0 <= i < queue@.len() ==> (#[trigger] queue@[i]).0
                    < s.prop_layout.len(),
                out@ + queue_notes(t, n, queue@, k as int) == queue_notes(t, n, queue@, 0),
            decreases queue@.len() - k,
        {
            let (offset, change) = queue[k];
            let ghost before_out = out@;
            proof {
                assert(queue@[k as int].0 < s.prop_layout.len());
            }
            DepProp::new(offset).notify(store, self, change, &mut out);
            proof {
                assert(before_out + (t.notes(offset as int, n, change) + queue_notes(
                    t,
                    n,
                    queue@,
                    k + 1,
                )) =~= (before_out + t.notes(offset as int, n, change)) + queue_notes(
                    t,
                    n,
                    queue@,
                    k + 1,
                ));
            }
            k += 1;
        }
        proof {
            assert(out@ =~= queue_notes(t, n, queue@, 0));
        }
        (old_style, out)
    }
}

} // verus!
