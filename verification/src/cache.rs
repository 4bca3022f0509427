//! Proofs about the caches of inheriting properties: that they stay right
//! under every kind of change to a store, and that a right cache is exact.

use crate::change::Change;
use crate::entry::PropState;
use crate::handlers::{all_below, distinct};
use crate::model::StoreState;
use crate::notify::Notification;
use vstd::prelude::*;

verus! {

/// Whether `t` has the owners of `s` in the same hierarchy, with the same
/// properties inheriting and handlers on the same slots.
pub open spec fn same_listeners<T>(s: StoreState<T>, t: StoreState<T>) -> bool {
    &&& t.owners.len() == s.owners.len()
    &&& t.prop_layout.len() == s.prop_layout.len()
    &&& forall|n: int|
        0 <= n < s.owners.len() ==> (#[trigger] t.owners[n]).children == s.owners[n].children
    &&& forall|n: int, p: int|
        0 <= n < s.owners.len() && 0 <= p < s.prop_layout.len() ==> {
            &&& (#[trigger] t.prop(n, p)).inherits == s.prop(n, p).inherits
            &&& t.prop(n, p).has_own_handlers() == s.prop(n, p).has_own_handlers()
        }
}

/// Caches that are right for a store are right for any store with the same
/// hierarchy and handlers on the same slots.
pub proof fn lemma_caches_frame<T>(s: StoreState<T>, t: StoreState<T>, cs: Seq<Seq<Option<bool>>>)
    requires
        s.base_wf(),
        s.caches_ok(cs),
        same_listeners(s, t),
    ensures
        t.caches_ok(cs),
{
    assert forall|n: int, p: int|
        0 <= n < t.owners.len() && 0 <= p < t.prop_layout.len() implies #[trigger] t.cache_ok(
        cs,
        n,
        p,
    ) by {
        assert(s.cache_ok(cs, n, p));
        assert(s.owner_ok(n));
        assert(t.prop(n, p).inherits == s.prop(n, p).inherits);
        assert(t.owners[n].children == s.owners[n].children);
        assert forall|i: int| 0 <= i < s.owners[n].children.len() implies t.child_interested(
            cs,
            n,
            p,
            i,
        ) == s.child_interested(cs, n, p, i) by {
            assert(s.child_ok(n, i));
            let c = s.owners[n].children[i] as int;
            assert(t.prop(c, p).has_own_handlers() == s.prop(c, p).has_own_handlers());
        }
        if t.some_child_interested(cs, n, p) {
            let i = choose|i: int|
                0 <= i < t.owners[n].children.len() && #[trigger] t.child_interested(cs, n, p, i);
            assert(s.child_interested(cs, n, p, i));
        }
        if s.some_child_interested(cs, n, p) {
            let i = choose|i: int|
                0 <= i < s.owners[n].children.len() && #[trigger] s.child_interested(cs, n, p, i);
            assert(t.child_interested(cs, n, p, i));
        }
    }
}

/// Style slots that mirror their styles still do where no style and no
/// style slot differs.
pub proof fn lemma_mirror_frame<T>(s: StoreState<T>, t: StoreState<T>)
    requires
        s.mirrored(),
        t.owners.len() == s.owners.len(),
        t.prop_layout.len() == s.prop_layout.len(),
        forall|n: int| 0 <= n < s.owners.len() ==> (#[trigger] t.owners[n]).style == s.owners[n].style,
        forall|n: int, p: int|
            0 <= n < s.owners.len() && 0 <= p < s.prop_layout.len() ==> (#[trigger] t.prop(
                n,
                p,
            )).style == s.prop(n, p).style,
    ensures
        t.mirrored(),
{
    assert forall|n: int, p: int|
        0 <= n < t.owners.len() && 0 <= p < t.prop_layout.len() implies #[trigger] t.slot_mirrors(
        n,
        p,
    ) by {
        assert(s.slot_mirrors(n, p));
        assert(t.owners[n].style == s.owners[n].style);
        assert(t.prop(n, p).style == s.prop(n, p).style);
    }
}

/// A store with right caches that is sound at every moment stays so when a
/// property slot is replaced by one with the same layout and handlers on it
/// or not as before. Where the style slot stays too, the style slots mirror
/// the styles as before.
pub proof fn lemma_with_prop<T>(
    s: StoreState<T>,
    cs: Seq<Seq<Option<bool>>>,
    n: int,
    p: int,
    e: PropState<T>,
)
    requires
        s.base_wf(),
        s.caches_ok(cs),
        s.has_owner(n),
        s.has_prop(p),
        e.default == s.prop(n, p).default,
        e.inherits == s.prop(n, p).inherits,
        e.wf(),
        all_below(e.value_handlers, s.next_handler),
        all_below(e.change_handlers, s.next_handler),
        e.has_own_handlers() == s.prop(n, p).has_own_handlers(),
    ensures
        s.with_prop(n, p, e).base_wf(),
        s.with_prop(n, p, e).caches_ok(cs),
        s.mirrored() && e.style == s.prop(n, p).style ==> s.with_prop(n, p, e).mirrored(),
{
    let t = s.with_prop(n, p, e);
    assert(s.owner_ok(n));
    if s.mirrored() && e.style == s.prop(n, p).style {
        assert forall|m: int, q: int|
            0 <= m < t.owners.len() && 0 <= q < t.prop_layout.len() implies #[trigger] t.slot_mirrors(
            m,
            q,
        ) by {
            assert(s.slot_mirrors(m, q));
            assert(s.owner_ok(m));
        }
    }
    lemma_same_hierarchy_wf(s, t);
    assert forall|m: int| 0 <= m < t.owners.len() implies #[trigger] t.owner_ok(m) by {
        assert(s.owner_ok(m));
        assert(t.hierarchy_ok(m));
        let o = t.owners[m];
        assert forall|q: int| 0 <= q < o.props.len() implies #[trigger] t.prop_ok(m, q) by {
            assert(s.prop_ok(m, q));
        }
        assert forall|q: int| 0 <= q < o.events.len() implies #[trigger] t.event_ok(m, q) by {
            assert(s.event_ok(m, q));
        }
        assert forall|q: int| 0 <= q < o.vecs.len() implies #[trigger] t.vec_ok(m, q) by {
            assert(s.vec_ok(m, q));
        }
    }
    assert(same_listeners(s, t)) by {
        assert forall|m: int, q: int|
            0 <= m < s.owners.len() && 0 <= q < s.prop_layout.len() implies {
            &&& (#[trigger] t.prop(m, q)).inherits == s.prop(m, q).inherits
            &&& t.prop(m, q).has_own_handlers() == s.prop(m, q).has_own_handlers()
        } by {
            assert(s.owner_ok(m));
        }
    }
    lemma_caches_frame(s, t, cs);
}

/// The hierarchy of a sound store is sound in any store with the same
/// owners, parents and children.
pub proof fn lemma_same_hierarchy_wf<T>(s: StoreState<T>, t: StoreState<T>)
    requires
        s.base_wf(),
        t.owners.len() == s.owners.len(),
        forall|n: int|
            0 <= n < s.owners.len() ==> {
                &&& (#[trigger] t.owners[n]).children == s.owners[n].children
                &&& t.owners[n].parent == s.owners[n].parent
            },
    ensures
        forall|n: int| 0 <= n < t.owners.len() ==> #[trigger] t.hierarchy_ok(n),
{
    assert forall|n: int| 0 <= n < t.owners.len() implies #[trigger] t.hierarchy_ok(n) by {
        assert(s.owner_ok(n));
        assert(t.owners[n].children == s.owners[n].children);
        assert forall|i: int| 0 <= i < t.owners[n].children.len() implies #[trigger] t.child_ok(
            n,
            i,
        ) by {
            assert(s.child_ok(n, i));
            let c = s.owners[n].children[i] as int;
            assert(t.owners[c].parent == s.owners[c].parent);
        }
        match s.owners[n].parent {
            Some(q) => {
                assert(t.owners[q as int].children == s.owners[q as int].children);
            },
            None => {},
        }
    }
}

/// Whether the registrations `after` are those from `before`, or else sound
/// for a store whose next identifier is `next`.
pub open spec fn relisted(before: Seq<u64>, after: Seq<u64>, next: u64) -> bool {
    after == before || (distinct(after) && all_below(after, next))
}

/// Whether `t` differs from `s` in nothing but what is registered where,
/// local values, items, bindings and the next identifier.
pub open spec fn same_frame<T>(s: StoreState<T>, t: StoreState<T>) -> bool {
    &&& t.prop_layout == s.prop_layout
    &&& t.event_layout == s.event_layout
    &&& t.vec_count == s.vec_count
    &&& t.owners.len() == s.owners.len()
    &&& s.next_handler <= t.next_handler
    &&& forall|n: int|
        0 <= n < s.owners.len() ==> {
            &&& (#[trigger] t.owners[n]).children == s.owners[n].children
            &&& t.owners[n].parent == s.owners[n].parent
            &&& t.owners[n].style == s.owners[n].style
            &&& t.owners[n].props.len() == s.owners[n].props.len()
            &&& t.owners[n].events.len() == s.owners[n].events.len()
            &&& t.owners[n].vecs.len() == s.owners[n].vecs.len()
        }
    &&& forall|n: int, p: int|
        0 <= n < s.owners.len() && 0 <= p < s.prop_layout.len() ==> {
            &&& (#[trigger] t.prop(n, p)).default == s.prop(n, p).default
            &&& t.prop(n, p).inherits == s.prop(n, p).inherits
            &&& t.prop(n, p).style == s.prop(n, p).style
            &&& relisted(s.prop(n, p).value_handlers, t.prop(n, p).value_handlers, t.next_handler)
            &&& relisted(
                s.prop(n, p).change_handlers,
                t.prop(n, p).change_handlers,
                t.next_handler,
            )
        }
    &&& forall|n: int, e: int|
        0 <= n < s.owners.len() && 0 <= e < s.event_layout.len() ==> {
            &&& (#[trigger] t.owners[n].events[e]).bubble == s.owners[n].events[e].bubble
            &&& relisted(
                s.owners[n].events[e].handlers,
                t.owners[n].events[e].handlers,
                t.next_handler,
            )
        }
    &&& forall|n: int, v: int|
        0 <= n < s.owners.len() && 0 <= v < s.vec_count ==> {
            &&& relisted(
                s.owners[n].vecs[v].changed_handlers,
                (#[trigger] t.owners[n].vecs[v]).changed_handlers,
                t.next_handler,
            )
            &&& relisted(
                s.owners[n].vecs[v].removed_items_handlers,
                t.owners[n].vecs[v].removed_items_handlers,
                t.next_handler,
            )
            &&& relisted(
                s.owners[n].vecs[v].inserted_items_handlers,
                t.owners[n].vecs[v].inserted_items_handlers,
                t.next_handler,
            )
        }
}

/// A store is in the frame of one that is sound at every moment where it
/// differs from it in one owner only and in the next identifier, which does
/// not fall, and that owner has its place in the hierarchy, its style, its
/// style slots and its slots' layout as before, with registrations that are
/// those from before or else sound.
pub proof fn lemma_one_owner_frame<T>(s: StoreState<T>, t: StoreState<T>, n: int)
    requires
        s.base_wf(),
        s.has_owner(n),
        t.prop_layout == s.prop_layout,
        t.event_layout == s.event_layout,
        t.vec_count == s.vec_count,
        s.next_handler <= t.next_handler,
        t.owners.len() == s.owners.len(),
        forall|m: int| 0 <= m < s.owners.len() && m != n ==> t.owners[m] == s.owners[m],
        t.owners[n].children == s.owners[n].children,
        t.owners[n].parent == s.owners[n].parent,
        t.owners[n].style == s.owners[n].style,
        t.owners[n].props.len() == s.owners[n].props.len(),
        t.owners[n].events.len() == s.owners[n].events.len(),
        t.owners[n].vecs.len() == s.owners[n].vecs.len(),
        forall|q: int|
            0 <= q < s.prop_layout.len() ==> {
                &&& (#[trigger] t.owners[n].props[q]).default == s.owners[n].props[q].default
                &&& t.owners[n].props[q].inherits == s.owners[n].props[q].inherits
                &&& t.owners[n].props[q].style == s.owners[n].props[q].style
                &&& relisted(
                    s.owners[n].props[q].value_handlers,
                    t.owners[n].props[q].value_handlers,
                    t.next_handler,
                )
                &&& relisted(
                    s.owners[n].props[q].change_handlers,
                    t.owners[n].props[q].change_handlers,
                    t.next_handler,
                )
            },
        forall|q: int|
            0 <= q < s.event_layout.len() ==> {
                &&& (#[trigger] t.owners[n].events[q]).bubble == s.owners[n].events[q].bubble
                &&& relisted(
                    s.owners[n].events[q].handlers,
                    t.owners[n].events[q].handlers,
                    t.next_handler,
                )
            },
        forall|q: int|
            0 <= q < s.vec_count ==> {
                &&& relisted(
                    s.owners[n].vecs[q].changed_handlers,
                    (#[trigger] t.owners[n].vecs[q]).changed_handlers,
                    t.next_handler,
                )
                &&& relisted(
                    s.owners[n].vecs[q].removed_items_handlers,
                    t.owners[n].vecs[q].removed_items_handlers,
                    t.next_handler,
                )
                &&& relisted(
                    s.owners[n].vecs[q].inserted_items_handlers,
                    t.owners[n].vecs[q].inserted_items_handlers,
                    t.next_handler,
                )
            },
    ensures
        same_frame(s, t),
{
    assert forall|m: int, q: int|
        0 <= m < s.owners.len() && 0 <= q < s.prop_layout.len() implies {
        &&& (#[trigger] t.prop(m, q)).default == s.prop(m, q).default
        &&& t.prop(m, q).inherits == s.prop(m, q).inherits
        &&& t.prop(m, q).style == s.prop(m, q).style
        &&& relisted(s.prop(m, q).value_handlers, t.prop(m, q).value_handlers, t.next_handler)
        &&& relisted(s.prop(m, q).change_handlers, t.prop(m, q).change_handlers, t.next_handler)
    } by {
        assert(s.owner_ok(m));
        if m == n {
            assert(t.owners[n].props[q].default == s.owners[n].props[q].default);
        }
    }
    assert forall|m: int, q: int|
        0 <= m < s.owners.len() && 0 <= q < s.event_layout.len() implies {
        &&& (#[trigger] t.owners[m].events[q]).bubble == s.owners[m].events[q].bubble
        &&& relisted(
            s.owners[m].events[q].handlers,
            t.owners[m].events[q].handlers,
            t.next_handler,
        )
    } by {
        assert(s.owner_ok(m));
    }
    assert forall|m: int, q: int| 0 <= m < s.owners.len() && 0 <= q < s.vec_count implies {
        &&& relisted(
            s.owners[m].vecs[q].changed_handlers,
            (#[trigger] t.owners[m].vecs[q]).changed_handlers,
            t.next_handler,
        )
        &&& relisted(
            s.owners[m].vecs[q].removed_items_handlers,
            t.owners[m].vecs[q].removed_items_handlers,
            t.next_handler,
        )
        &&& relisted(
            s.owners[m].vecs[q].inserted_items_handlers,
            t.owners[m].vecs[q].inserted_items_handlers,
            t.next_handler,
        )
    } by {
        assert(s.owner_ok(m));
    }
}

/// A store that differs from a sound one in nothing but what is registered
/// where, local values, items, bindings and the next identifier is sound.
pub proof fn lemma_same_frame_wf<T>(s: StoreState<T>, t: StoreState<T>)
    requires
        s.base_wf(),
        same_frame(s, t),
    ensures
        t.base_wf(),
        s.mirrored() ==> t.mirrored(),
{
    if s.mirrored() {
        lemma_mirror_frame(s, t);
    }
    lemma_same_hierarchy_wf(s, t);
    assert forall|m: int| 0 <= m < t.owners.len() implies #[trigger] t.owner_ok(m) by {
        assert(s.owner_ok(m));
        assert(t.hierarchy_ok(m));
        let o = t.owners[m];
        assert(o.children == s.owners[m].children);
        assert forall|q: int| 0 <= q < o.props.len() implies #[trigger] t.prop_ok(m, q) by {
            assert(s.prop_ok(m, q));
            assert(t.prop(m, q).default == s.prop(m, q).default);
        }
        assert forall|q: int| 0 <= q < o.events.len() implies #[trigger] t.event_ok(m, q) by {
            assert(s.event_ok(m, q));
            assert(t.owners[m].events[q].bubble == s.owners[m].events[q].bubble);
        }
        assert forall|q: int| 0 <= q < o.vecs.len() implies #[trigger] t.vec_ok(m, q) by {
            assert(s.vec_ok(m, q));
            assert(relisted(
                s.owners[m].vecs[q].changed_handlers,
                t.owners[m].vecs[q].changed_handlers,
                t.next_handler,
            ));
        }
    }
}

/// A store that differs from a sound one with right caches in nothing but
/// events, collections, bindings added and the next identifier is sound, and
/// the caches are right for it.
pub proof fn lemma_props_untouched<T>(s: StoreState<T>, t: StoreState<T>, cs: Seq<Seq<Option<bool>>>)
    requires
        s.base_wf(),
        s.caches_ok(cs),
        same_frame(s, t),
        forall|n: int| 0 <= n < s.owners.len() ==> (#[trigger] t.owners[n]).props == s.owners[n].props,
    ensures
        t.base_wf(),
        s.mirrored() ==> t.mirrored(),
        t.caches_ok(cs),
{
    lemma_same_frame_wf(s, t);
    assert(same_listeners(s, t)) by {
        assert forall|m: int, q: int|
            0 <= m < s.owners.len() && 0 <= q < s.prop_layout.len() implies {
            &&& (#[trigger] t.prop(m, q)).inherits == s.prop(m, q).inherits
            &&& t.prop(m, q).has_own_handlers() == s.prop(m, q).has_own_handlers()
        } by {
            assert(t.owners[m].props == s.owners[m].props);
        }
    }
    lemma_caches_frame(s, t, cs);
}

/// When handlers come or go on the slot of `p` on `n` alone, right caches
/// stay right if `n` has somebody to tell as before; else all stay right
/// but perhaps that of the parent of `n`.
pub proof fn lemma_listener_changed<T>(
    s: StoreState<T>,
    t: StoreState<T>,
    cs: Seq<Seq<Option<bool>>>,
    n: int,
    p: int,
)
    requires
        s.base_wf(),
        s.caches_ok(cs),
        s.has_owner(n),
        s.has_prop(p),
        t.owners.len() == s.owners.len(),
        t.prop_layout.len() == s.prop_layout.len(),
        forall|m: int|
            0 <= m < s.owners.len() ==> (#[trigger] t.owners[m]).children == s.owners[m].children,
        forall|m: int, q: int|
            0 <= m < s.owners.len() && 0 <= q < s.prop_layout.len() ==> {
                &&& (#[trigger] t.prop(m, q)).inherits == s.prop(m, q).inherits
                &&& !(m == n && q == p) ==> t.prop(m, q).has_own_handlers() == s.prop(
                    m,
                    q,
                ).has_own_handlers()
            },
    ensures
        s.prop(n, p).inherits && s.interested(cs, n, p) != t.interested(cs, n, p)
            ==> match s.owners[n].parent {
            Some(q) => t.caches_ok_except(cs, q as int, p),
            None => t.caches_ok(cs),
        },
        !s.prop(n, p).inherits || s.interested(cs, n, p) == t.interested(cs, n, p)
            ==> t.caches_ok(cs),
{
    let flipped = s.interested(cs, n, p) != t.interested(cs, n, p);
    let par: int = match s.owners[n].parent {
        Some(q) => q as int,
        None => -1,
    };
    assert(s.owner_ok(n));
    assert(s.prop_ok(n, p));
    assert forall|m: int, q: int|
        0 <= m < t.owners.len() && 0 <= q < t.prop_layout.len() && !(s.prop(n, p).inherits
            && flipped && m == par && q == p) implies #[trigger] t.cache_ok(cs, m, q) by {
        assert(s.cache_ok(cs, m, q));
        assert(s.owner_ok(m));
        assert(s.prop_ok(m, q));
        assert(t.prop(m, q).inherits == s.prop(m, q).inherits);
        assert(t.owners[m].children == s.owners[m].children);
        if cs[m][q].is_some() {
            assert forall|i: int| 0 <= i < s.owners[m].children.len() implies t.child_interested(
                cs,
                m,
                q,
                i,
            ) == s.child_interested(cs, m, q, i) by {
                assert(s.child_ok(m, i));
                let c = s.owners[m].children[i] as int;
                if c == n && q == p {
                    assert(m == par);
                    assert(s.prop(m, q).inherits);
                    assert(s.prop(n, p).inherits);
                    assert(!flipped);
                } else {
                    assert(t.prop(c, q).has_own_handlers() == s.prop(c, q).has_own_handlers());
                }
            }
            if t.some_child_interested(cs, m, q) {
                let i = choose|i: int|
                    0 <= i < t.owners[m].children.len() && #[trigger] t.child_interested(
                        cs,
                        m,
                        q,
                        i,
                    );
                assert(s.child_interested(cs, m, q, i));
            }
            if s.some_child_interested(cs, m, q) {
                let i = choose|i: int|
                    0 <= i < s.owners[m].children.len() && #[trigger] s.child_interested(
                        cs,
                        m,
                        q,
                        i,
                    );
                assert(t.child_interested(cs, m, q, i));
            }
        }
    }
    if s.prop(n, p).inherits && flipped {
        match s.owners[n].parent {
            Some(q) => {
                assert(s.owner_ok(q as int));
                assert(s.prop_ok(q as int, p));
                assert(s.cache_ok(cs, q as int, p));
                assert(t.prop(q as int, p).inherits == s.prop(q as int, p).inherits);
            },
            None => {},
        }
    }
}

/// The caches `cs` with that of `p` on `n` replaced by `b`.
pub open spec fn recached(cs: Seq<Seq<Option<bool>>>, n: int, p: int, b: bool) -> Seq<
    Seq<Option<bool>>,
> {
    cs.update(n, cs[n].update(p, Some(b)))
}

/// When the one cache that may be wrong is set right, all caches are right
/// if it stays as it was; else all are right but perhaps that of the parent.
pub proof fn lemma_cache_set_right<T>(
    s: StoreState<T>,
    cs: Seq<Seq<Option<bool>>>,
    n: int,
    p: int,
)
    requires
        s.base_wf(),
        s.has_owner(n),
        s.has_prop(p),
        s.caches_ok_except(cs, n, p),
    ensures
        cs[n][p] == Some(s.some_child_interested(cs, n, p)) ==> s.caches_ok(cs),
        cs[n][p] != Some(s.some_child_interested(cs, n, p)) ==> match s.owners[n].parent {
            Some(q) => s.caches_ok_except(
                recached(cs, n, p, s.some_child_interested(cs, n, p)),
                q as int,
                p,
            ),
            None => s.caches_ok(recached(cs, n, p, s.some_child_interested(cs, n, p))),
        },
{
    let b = s.some_child_interested(cs, n, p);
    let par: int = match s.owners[n].parent {
        Some(q) => q as int,
        None => -1,
    };
    assert(s.owner_ok(n));
    assert(s.prop_ok(n, p));
    if cs[n][p] == Some(b) {
        assert(s.cache_ok(cs, n, p));
        assert forall|m: int, q: int|
            0 <= m < s.owners.len() && 0 <= q < s.prop_layout.len() implies #[trigger] s.cache_ok(
            cs,
            m,
            q,
        ) by {
        }
    } else {
        let ct = recached(cs, n, p, b);
        assert(s.caches_shaped(ct)) by {
            assert forall|m: int| 0 <= m < ct.len() implies (#[trigger] ct[m]).len()
                == s.prop_layout.len() by {
                assert(cs[m].len() == s.prop_layout.len());
            }
        }
        assert forall|m: int, q: int|
            0 <= m < s.owners.len() && 0 <= q < s.prop_layout.len() && !(m == par && q == p)
                implies #[trigger] s.cache_ok(ct, m, q) by {
            assert(s.owner_ok(m));
            assert(cs[m].len() == s.prop_layout.len());
            assert forall|i: int| 0 <= i < s.owners[m].children.len() implies s.child_interested(
                ct,
                m,
                q,
                i,
            ) == s.child_interested(cs, m, q, i) by {
                assert(s.child_ok(m, i));
                let c = s.owners[m].children[i] as int;
                assert(cs[c].len() == s.prop_layout.len());
                if c == n && q == p {
                    assert(m == par);
                }
            }
            if s.some_child_interested(ct, m, q) {
                let i = choose|i: int|
                    0 <= i < s.owners[m].children.len() && #[trigger] s.child_interested(
                        ct,
                        m,
                        q,
                        i,
                    );
                assert(s.child_interested(cs, m, q, i));
            }
            if s.some_child_interested(cs, m, q) {
                let i = choose|i: int|
                    0 <= i < s.owners[m].children.len() && #[trigger] s.child_interested(
                        cs,
                        m,
                        q,
                        i,
                    );
                assert(s.child_interested(ct, m, q, i));
            }
            if m == n && q == p {
            } else {
                assert(s.cache_ok(cs, m, q));
            }
        }
        match s.owners[n].parent {
            Some(q) => {
                assert(s.owner_ok(q as int));
                assert(s.prop_ok(q as int, p));
                assert(q as int != n);
                if !(n == q as int) {
                    assert(s.parent_ok(n));
                }
                assert(cs[q as int].len() == s.prop_layout.len());
                assert(s.prop(q as int, p).inherits == s.prop(n, p).inherits);
                assert(ct[q as int][p] == cs[q as int][p]);
                assert(cs[q as int][p].is_some()) by {
                    // the parent's cache was right before, so it is there
                    assert(s.cache_ok(cs, q as int, p));
                }
            },
            None => {},
        }
    }
}

/// With right caches, a handler is registered below `n` among the children
/// from the `i`-th on exactly if one of those children has anybody to tell.
pub proof fn lemma_listens<T>(s: StoreState<T>, cs: Seq<Seq<Option<bool>>>, p: int, n: int, i: int)
    requires
        s.base_wf(),
        s.caches_ok(cs),
        s.has_owner(n),
        s.has_prop(p),
        s.prop_layout[p].1,
        0 <= i <= s.owners[n].children.len(),
    ensures
        s.listens_below(p, n, i) == (exists|j: int|
            i <= j < s.owners[n].children.len() && #[trigger] s.child_interested(cs, n, p, j)),
    decreases s.owners.len() - n, s.owners[n].children.len() - i,
{
    let kids = s.owners[n].children;
    assert(s.owner_ok(n));
    if i < kids.len() {
        let c = kids[i] as int;
        assert(s.child_ok(n, i));
        assert(s.owner_ok(c));
        assert(s.prop_ok(c, p));
        lemma_listens(s, cs, p, c, 0);
        assert(s.cache_ok(cs, c, p));
        assert(s.listens_below(p, c, 0) == s.some_child_interested(cs, c, p));
        assert(s.child_interested(cs, n, p, i) == (s.prop(c, p).has_own_handlers()
            || s.listens_below(p, c, 0)));
        lemma_listens(s, cs, p, n, i + 1);
        if s.listens_below(p, n, i) {
            if s.child_interested(cs, n, p, i) {
            } else {
                let j = choose|j: int|
                    i + 1 <= j < kids.len() && #[trigger] s.child_interested(cs, n, p, j);
                assert(i <= j < kids.len() && s.child_interested(cs, n, p, j));
            }
        }
        if exists|j: int| i <= j < kids.len() && #[trigger] s.child_interested(cs, n, p, j) {
            let j = choose|j: int| i <= j < kids.len() && #[trigger] s.child_interested(cs, n, p, j);
            if j != i {
                assert(i + 1 <= j < kids.len() && s.child_interested(cs, n, p, j));
            }
        }
    }
}

/// A right cache is exact: it says whether a handler of the property is
/// registered on any owner below, however far down.
pub proof fn lemma_cache_exact<T>(s: StoreState<T>, cs: Seq<Seq<Option<bool>>>, p: int, n: int)
    requires
        s.base_wf(),
        s.caches_ok(cs),
        s.has_owner(n),
        s.has_prop(p),
    ensures
        match cs[n][p] {
            Some(b) => b == s.listens_below(p, n, 0),
            None => !s.prop(n, p).inherits,
        },
{
    assert(s.cache_ok(cs, n, p));
    assert(s.owner_ok(n));
    assert(s.prop_ok(n, p));
    if cs[n][p].is_some() {
        lemma_listens(s, cs, p, n, 0);
    }
}

/// Where no handler is registered below, nobody below is told.
pub proof fn lemma_silent_below<T>(s: StoreState<T>, p: int, n: int, change: Change<T>, i: int)
    requires
        s.base_wf(),
        s.has_owner(n),
        s.has_prop(p),
        0 <= i <= s.owners[n].children.len(),
        !s.listens_below(p, n, i),
    ensures
        s.notes_below(p, n, change, i) == Seq::<Notification<T>>::empty(),
    decreases s.owners.len() - n, s.owners[n].children.len() - i,
{
    let kids = s.owners[n].children;
    assert(s.owner_ok(n));
    if i < kids.len() {
        let c = kids[i] as int;
        assert(s.child_ok(n, i));
        assert(s.owner_ok(c));
        lemma_silent_below(s, p, c, change, 0);
        lemma_silent_below(s, p, n, change, i + 1);
        assert(s.notes_at(p, c, change) =~= Seq::<Notification<T>>::empty());
        assert(s.notes_below(p, n, change, i) =~= Seq::<Notification<T>>::empty());
    }
}

} // verus!
