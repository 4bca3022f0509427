//! What holds of every store: round trips, suppression of calls that would
//! tell nothing new, who is told of an inherited change, and what is left
//! after an owner is given up.

use crate::cache::{lemma_one_owner_frame, lemma_same_frame_wf};
use crate::change::Change;
use crate::model::{slot_change, StoreState};
use crate::entry::PropState;
use crate::notify::{Glob, Notification, Payload};
use crate::styling::with_style;
use crate::teardown::without_handlers;
use crate::vec::{lemma_with_items_again, vec_calls, VecNotification};
use vstd::prelude::*;

verus! {

/// The effective value of a property on an owner depends on nothing but the
/// property's slots on the owner and on the owners above it.
pub proof fn lemma_resolution_frame<T>(s: StoreState<T>, t: StoreState<T>, p: int, n: int)
    requires
        s.has_owner(n),
        t.has_owner(n),
        forall|m: int|
            0 <= m <= n ==> {
                &&& (#[trigger] t.owners[m]).parent == s.owners[m].parent
                &&& t.owners[m].props[p].inherits == s.owners[m].props[p].inherits
                &&& t.owners[m].props[p].default == s.owners[m].props[p].default
            },
        forall|m: int|
            0 <= m < n ==> {
                &&& (#[trigger] t.owners[m]).props[p].local == s.owners[m].props[p].local
                &&& t.owners[m].props[p].style == s.owners[m].props[p].style
            },
    ensures
        t.unstyled_non_local_value(p, n) == s.unstyled_non_local_value(p, n),
        t.owners[n].props[p].style == s.owners[n].props[p].style ==> t.non_local_value(p, n)
            == s.non_local_value(p, n),
        t.owners[n].props[p].style == s.owners[n].props[p].style && t.owners[n].props[p].local
            == s.owners[n].props[p].local ==> t.current_value(p, n) == s.current_value(p, n),
    decreases n,
{
    assert(t.owners[n].parent == s.owners[n].parent);
    match s.owners[n].parent {
        Some(q) => {
            if 0 <= q < n {
                assert(t.owners[q as int].props[p].local == s.owners[q as int].props[p].local);
                lemma_resolution_frame(s, t, p, q as int);
            }
        },
        None => {},
    }
}

/// Round trip: giving a property without a local value one and taking it
/// away again leaves the store as it was, and so every effective value as
/// it was. Where the property had a local value, what is left is the store
/// without it.
pub proof fn lemma_set_unset_round_trip<T>(s: StoreState<T>, p: int, n: int, v: T)
    requires
        s.has_owner(n),
        0 <= p < s.owners[n].props.len(),
    ensures
        s.with_local(n, p, Some(v)).with_local(n, p, None) == s.with_local(n, p, None),
        s.prop(n, p).local.is_none() ==> s.with_local(n, p, Some(v)).with_local(n, p, None) == s,
        s.prop(n, p).local.is_none() ==> forall|q: int, m: int|
            s.with_local(n, p, Some(v)).with_local(n, p, None).current_value(q, m)
                == s.current_value(q, m),
{
    let t = s.with_local(n, p, Some(v)).with_local(n, p, None);
    let u = s.with_local(n, p, None);
    assert(t.owners[n].props =~= u.owners[n].props);
    assert(t.owners =~= u.owners);
    if s.prop(n, p).local.is_none() {
        assert(u.owners[n].props =~= s.owners[n].props);
        assert(u.owners =~= s.owners);
    }
}

/// A set or unset owes calls exactly if it changes the effective value of
/// the property on the owner, and the calls then carry the effective value
/// from before and the one from after.
pub proof fn lemma_calls_iff_value_changes<T>(s: StoreState<T>, p: int, n: int, value: Option<T>)
    requires
        s.wf(),
        s.has_owner(n),
        s.has_prop(p),
    ensures
        match s.local_change(p, n, value) {
            Some(c) => {
                &&& c == Change::of(
                    s.current_value(p, n),
                    s.with_local(n, p, value).current_value(p, n),
                )
                &&& s.current_value(p, n) != s.with_local(n, p, value).current_value(p, n)
            },
            None => s.with_local(n, p, value).current_value(p, n) == s.current_value(p, n),
        },
{
    let t = s.with_local(n, p, value);
    assert(s.owner_ok(n));
    lemma_resolution_frame(s, t, p, n);
    assert(t.non_local_value(p, n) == s.non_local_value(p, n));
}

/// No-op suppression: setting a property to its effective value owes no
/// call, whether the property has a local value or not, and neither does
/// taking away a local value that is what shows without it.
pub proof fn lemma_same_value_is_silent<T>(s: StoreState<T>, p: int, n: int)
    requires
        s.wf(),
        s.has_owner(n),
        s.has_prop(p),
    ensures
        s.local_change(p, n, Some(s.current_value(p, n))).is_none(),
        s.prop(n, p).local == Some(s.non_local_value(p, n)) ==> s.local_change(p, n, None).is_none(),
        forall|t: StoreState<T>|
            t.notes_if(p, n, s.local_change(p, n, Some(s.current_value(p, n)))) == Seq::<
                Notification<T>,
            >::empty(),
{
}

/// Whether the owner `t` below `n` shows the value of `n` for the property
/// `p`: neither `t` nor any owner between the two overrides it.
pub open spec fn unbroken<T>(s: StoreState<T>, p: int, t: int, n: int) -> bool
    decreases t,
{
    &&& n < t < s.owners.len()
    &&& !s.prop(t, p).overrides()
    &&& match s.owners[t].parent {
        Some(q) => q < t && (q == n || unbroken(s, p, q as int, n)),
        None => false,
    }
}

/// An owner that shows the value of a child of `n` that does not override
/// shows the value of `n`.
pub proof fn lemma_unbroken_up<T>(s: StoreState<T>, p: int, t: int, c: int, n: int)
    requires
        unbroken(s, p, t, c),
        0 <= n < c < s.owners.len(),
        !s.prop(c, p).overrides(),
        match s.owners[c].parent {
            Some(q) => q == n,
            None => false,
        },
    ensures
        unbroken(s, p, t, n),
    decreases t,
{
    assert(unbroken(s, p, c, n));
    match s.owners[t].parent {
        Some(q) => {
            if q != c {
                lemma_unbroken_up(s, p, q as int, c, n);
            }
        },
        None => {},
    }
}

/// Whether `note` is a call to a handler that `e` has, with what that
/// handler is owed for `change`.
pub open spec fn told<T>(note: Notification<T>, e: PropState<T>, change: Change<T>) -> bool {
    match note.payload {
        Payload::Value(v) => v == change.pair().1 && e.value_handlers.contains(note.handler),
        Payload::Change(c) => c == change && e.change_handlers.contains(note.handler),
    }
}

/// Inheritance: every call owed below `n` for a change on `n` goes to a
/// handler registered on an owner that shows the value of `n`, for that
/// change. So an owner that overrides the property is not told, and
/// neither is any owner below it.
pub proof fn lemma_told_below<T>(
    s: StoreState<T>,
    p: int,
    n: int,
    change: Change<T>,
    i: int,
    k: int,
)
    requires
        s.base_wf(),
        s.has_owner(n),
        s.has_prop(p),
        0 <= i <= s.owners[n].children.len(),
        0 <= k < s.notes_below(p, n, change, i).len(),
    ensures
        ({
            let note = s.notes_below(p, n, change, i)[k];
            &&& unbroken(s, p, note.target.id as int, n)
            &&& told(note, s.prop(note.target.id as int, p), change)
        }),
    decreases s.owners.len() - n, s.owners[n].children.len() - i,
{
    assert(s.owner_ok(n));
    let c = s.owners[n].children[i] as int;
    assert(s.child_ok(n, i));
    assert(s.owner_ok(c));
    let here = if !s.prop(c, p).overrides() {
        s.notes_at(p, c, change) + s.notes_below(p, c, change, 0)
    } else {
        Seq::empty()
    };
    assert(s.notes_below(p, n, change, i) == here + s.notes_below(p, n, change, i + 1));
    if k < here.len() {
        let at = s.notes_at(p, c, change);
        if k < at.len() {
            let e = s.prop(c, p);
            if k < e.value_handlers.len() {
                assert(e.value_handlers[k] == at[k].handler);
            } else {
                assert(e.change_handlers[k - e.value_handlers.len()] == at[k].handler);
            }
        } else {
            lemma_told_below(s, p, c, change, 0, k - at.len());
            let note = s.notes_below(p, c, change, 0)[k - at.len()];
            lemma_unbroken_up(s, p, note.target.id as int, c, n);
        }
    } else {
        lemma_told_below(s, p, n, change, i + 1, k - here.len());
    }
}

/// The child of `n` under which the owner `t` stands, for an owner below
/// `n`: the owner itself where `n` is its parent, else that of its parent.
pub open spec fn branch<T>(s: StoreState<T>, t: int, n: int) -> int
    decreases t,
{
    match s.owners[t].parent {
        Some(q) => if q == n || !(0 <= q < t) {
            t
        } else {
            branch(s, q as int, n)
        },
        None => t,
    }
}

/// An owner that shows the value of a child of `n` stands under that child.
pub proof fn lemma_branch<T>(s: StoreState<T>, p: int, t: int, c: int, n: int)
    requires
        unbroken(s, p, t, c),
        0 <= n < c,
        match s.owners[c].parent {
            Some(q) => q == n,
            None => false,
        },
    ensures
        branch(s, t, n) == c,
    decreases t,
{
    assert(branch(s, c, n) == c);
    match s.owners[t].parent {
        Some(q) => {
            if q != c {
                assert(unbroken(s, p, q as int, c));
                lemma_branch(s, p, q as int, c, n);
            }
            assert(branch(s, t, n) == branch(s, q as int, n));
        },
        None => {},
    }
}

/// No two of the calls owed to an owner's own handlers are the same call.
pub proof fn lemma_own_told_once<T>(
    s: StoreState<T>,
    p: int,
    t: int,
    change: Change<T>,
    a: int,
    b: int,
)
    requires
        s.base_wf(),
        s.has_owner(t),
        s.has_prop(p),
        0 <= a < b < s.notes_at(p, t, change).len(),
    ensures
        s.notes_at(p, t, change)[a] != s.notes_at(p, t, change)[b],
{
    assert(s.owner_ok(t));
    assert(s.prop_ok(t, p));
    let e = s.prop(t, p);
    let at = s.notes_at(p, t, change);
    let values = e.value_handlers.len();
    if b < values {
        assert(at[a].handler == e.value_handlers[a]);
        assert(at[b].handler == e.value_handlers[b]);
    } else if a >= values {
        assert(at[a].handler == e.change_handlers[a - values]);
        assert(at[b].handler == e.change_handlers[b - values]);
    } else {
        assert(at[a].payload is Value);
        assert(at[b].payload is Change);
    }
}

/// Every call owed below `n` for the children from the `i`-th on goes to an
/// owner that stands under one of those children.
pub proof fn lemma_told_under<T>(
    s: StoreState<T>,
    p: int,
    n: int,
    change: Change<T>,
    i: int,
    k: int,
)
    requires
        s.base_wf(),
        s.has_owner(n),
        s.has_prop(p),
        0 <= i <= s.owners[n].children.len(),
        0 <= k < s.notes_below(p, n, change, i).len(),
    ensures
        exists|j: int|
            i <= j < s.owners[n].children.len() && #[trigger] s.owners[n].children[j] == branch(
                s,
                s.notes_below(p, n, change, i)[k].target.id as int,
                n,
            ),
    decreases s.owners[n].children.len() - i,
{
    assert(s.owner_ok(n));
    let kids = s.owners[n].children;
    let c = kids[i] as int;
    assert(s.child_ok(n, i));
    assert(s.owner_ok(c));
    let here = if !s.prop(c, p).overrides() {
        s.notes_at(p, c, change) + s.notes_below(p, c, change, 0)
    } else {
        Seq::empty()
    };
    assert(s.notes_below(p, n, change, i) == here + s.notes_below(p, n, change, i + 1));
    let t = s.notes_below(p, n, change, i)[k].target.id as int;
    if k < here.len() {
        let at = s.notes_at(p, c, change);
        if k < at.len() {
            assert(t == c);
        } else {
            lemma_told_below(s, p, c, change, 0, k - at.len());
            lemma_branch(s, p, t, c, n);
        }
        assert(branch(s, t, n) == c);
        assert(i <= i < kids.len() && kids[i] == branch(s, t, n));
    } else {
        lemma_told_under(s, p, n, change, i + 1, k - here.len());
        let j = choose|j: int| i + 1 <= j < kids.len() && #[trigger] kids[j] == branch(s, t, n);
        assert(i <= j < kids.len() && kids[j] == branch(s, t, n));
    }
}

/// Inheritance, once each: no two of the calls owed below `n` are the same
/// call. With `lemma_unbroken_is_told`, every handler on an owner that
/// shows the value of `n` is told of a change on `n` exactly once.
pub proof fn lemma_told_once<T>(
    s: StoreState<T>,
    p: int,
    n: int,
    change: Change<T>,
    i: int,
    a: int,
    b: int,
)
    requires
        s.base_wf(),
        s.has_owner(n),
        s.has_prop(p),
        0 <= i <= s.owners[n].children.len(),
        0 <= a < b < s.notes_below(p, n, change, i).len(),
    ensures
        s.notes_below(p, n, change, i)[a] != s.notes_below(p, n, change, i)[b],
    decreases s.owners.len() - n, s.owners[n].children.len() - i,
{
    assert(s.owner_ok(n));
    let kids = s.owners[n].children;
    let c = kids[i] as int;
    assert(s.child_ok(n, i));
    assert(s.owner_ok(c));
    let at = s.notes_at(p, c, change);
    let below = s.notes_below(p, c, change, 0);
    let here = if !s.prop(c, p).overrides() {
        at + below
    } else {
        Seq::empty()
    };
    let rest = s.notes_below(p, n, change, i + 1);
    let all = s.notes_below(p, n, change, i);
    assert(all == here + rest);
    if b < here.len() {
        if b < at.len() {
            lemma_own_told_once(s, p, c, change, a, b);
        } else if a < at.len() {
            lemma_told_below(s, p, c, change, 0, b - at.len());
            assert(all[a].target.id == c);
            assert(all[b].target.id > c);
        } else {
            lemma_told_once(s, p, c, change, 0, a - at.len(), b - at.len());
        }
    } else if a < here.len() {
        lemma_told_under(s, p, n, change, i, a);
        let ta = all[a].target.id as int;
        // The first of the two stands under the `i`-th child.
        if a < at.len() {
            assert(ta == c);
        } else {
            lemma_told_below(s, p, c, change, 0, a - at.len());
            lemma_branch(s, p, ta, c, n);
        }
        assert(branch(s, ta, n) == c);
        lemma_told_under(s, p, n, change, i + 1, b - here.len());
        let tb = all[b].target.id as int;
        let j = choose|j: int| i + 1 <= j < kids.len() && #[trigger] kids[j] == branch(s, tb, n);
        assert(kids[i] != kids[j]);
    } else {
        lemma_told_once(s, p, n, change, i + 1, a - here.len(), b - here.len());
    }
}

/// Once each, for the whole of a change: no two of the calls owed for a
/// change on `n` are the same call.
pub proof fn lemma_each_told_once<T>(
    s: StoreState<T>,
    p: int,
    n: int,
    change: Change<T>,
    a: int,
    b: int,
)
    requires
        s.base_wf(),
        s.has_owner(n),
        s.has_prop(p),
        0 <= a < b < s.notes(p, n, change).len(),
    ensures
        s.notes(p, n, change)[a] != s.notes(p, n, change)[b],
{
    let at = s.notes_at(p, n, change);
    let all = s.notes(p, n, change);
    if b < at.len() {
        lemma_own_told_once(s, p, n, change, a, b);
    } else if a < at.len() {
        lemma_told_below(s, p, n, change, 0, b - at.len());
        assert(all[a].target.id == n);
        assert(all[b].target.id > n);
    } else {
        lemma_told_once(s, p, n, change, 0, a - at.len(), b - at.len());
    }
}

/// A call owed for the children of `n` from the `j`-th on is owed for those
/// from the `i`-th on, where `i` comes before `j`.
pub proof fn lemma_owed_for_later_children<T>(
    s: StoreState<T>,
    p: int,
    n: int,
    change: Change<T>,
    i: int,
    j: int,
    note: Notification<T>,
)
    requires
        s.has_owner(n),
        0 <= i <= j <= s.owners[n].children.len(),
        s.notes_below(p, n, change, j).contains(note),
    ensures
        s.notes_below(p, n, change, i).contains(note),
    decreases j - i,
{
    if i < j {
        lemma_owed_for_later_children(s, p, n, change, i + 1, j, note);
        let c = s.owners[n].children[i] as int;
        let here = if n < c < s.owners.len() && !s.prop(c, p).overrides() {
            s.notes_at(p, c, change) + s.notes_below(p, c, change, 0)
        } else {
            Seq::empty()
        };
        let rest = s.notes_below(p, n, change, i + 1);
        let k = choose|k: int| 0 <= k < rest.len() && rest[k] == note;
        assert((here + rest)[here.len() + k] == note);
    }
}

/// Inheritance, the other way round: whatever is owed on or below an owner
/// that shows the value of `n` is owed below `n`. So every handler on an
/// owner that shows the value of `n` is told of a change on `n`.
pub proof fn lemma_unbroken_is_told<T>(
    s: StoreState<T>,
    p: int,
    n: int,
    change: Change<T>,
    t: int,
    note: Notification<T>,
)
    requires
        s.wf(),
        s.has_owner(n),
        s.has_prop(p),
        unbroken(s, p, t, n),
        s.notes_at(p, t, change).contains(note) || s.notes_below(p, t, change, 0).contains(note),
    ensures
        s.notes_below(p, n, change, 0).contains(note),
    decreases t,
{
    assert(s.owner_ok(t));
    assert(s.parent_ok(t));
    match s.owners[t].parent {
        Some(q) => {
            let q = q as int;
            assert(s.owner_ok(q));
            let kids = s.owners[q].children;
            let i = choose|i: int| 0 <= i < kids.len() && kids[i] == t as usize;
            assert(s.child_ok(q, i));
            let at = s.notes_at(p, t, change);
            let below = s.notes_below(p, t, change, 0);
            let here = at + below;
            let rest = s.notes_below(p, q, change, i + 1);
            assert(s.notes_below(p, q, change, i) == here + rest);
            if at.contains(note) {
                let k = choose|k: int| 0 <= k < at.len() && at[k] == note;
                assert((here + rest)[k] == note);
            } else {
                let k = choose|k: int| 0 <= k < below.len() && below[k] == note;
                assert((here + rest)[at.len() + k] == note);
            }
            lemma_owed_for_later_children(s, p, q, change, 0, i, note);
            if q != n {
                lemma_unbroken_is_told(s, p, n, change, q, note);
            }
        },
        None => {},
    }
}

/// Every handler of the value of a property on an owner is owed a call with
/// the new value, and every handler of its changes a call with the change.
pub proof fn lemma_own_handlers_are_told<T>(
    s: StoreState<T>,
    p: int,
    t: int,
    change: Change<T>,
    id: u64,
)
    requires
        0 <= t <= usize::MAX,
    ensures
        s.prop(t, p).value_handlers.contains(id) ==> s.notes_at(p, t, change).contains(
            Notification {
                target: Glob { id: t as usize },
                handler: id,
                payload: Payload::Value(change.pair().1),
            },
        ),
        s.prop(t, p).change_handlers.contains(id) ==> s.notes_at(p, t, change).contains(
            Notification {
                target: Glob { id: t as usize },
                handler: id,
                payload: Payload::Change(change),
            },
        ),
{
    let e = s.prop(t, p);
    let at = s.notes_at(p, t, change);
    if e.value_handlers.contains(id) {
        let k = choose|k: int| 0 <= k < e.value_handlers.len() && e.value_handlers[k] == id;
        assert(at[k].handler == id);
    }
    if e.change_handlers.contains(id) {
        let k = choose|k: int| 0 <= k < e.change_handlers.len() && e.change_handlers[k] == id;
        assert(at[e.value_handlers.len() + k].handler == id);
    }
}

/// Refresh: taking every item out of a collection and putting the same
/// items back leaves the store as it was.
pub proof fn lemma_refresh_round_trip<T>(s: StoreState<T>, n: int, v: int)
    requires
        s.has_owner(n),
        0 <= v < s.owners[n].vecs.len(),
    ensures
        s.with_items(n, v, Seq::empty()).with_items(n, v, s.vec(n, v).items) == s,
        s.with_items(n, v, Seq::empty()).vec(n, v).items == Seq::<T>::empty(),
{
    lemma_with_items_again(s, n, v, Seq::empty(), s.vec(n, v).items);
}

/// Styles: on an owner without a style, applying one style, then another,
/// then none leaves the store as it was, and so every effective value as if
/// no style had ever been applied.
pub proof fn lemma_styles_round_trip<T>(
    s: StoreState<T>,
    n: int,
    first: Option<Seq<(usize, T)>>,
    second: Option<Seq<(usize, T)>>,
)
    requires
        s.wf(),
        s.has_owner(n),
        s.owners[n].style.is_none(),
    ensures
        with_style(with_style(with_style(s, n, first), n, second), n, None) == s,
        forall|q: int, m: int|
            with_style(with_style(with_style(s, n, first), n, second), n, None).current_value(q, m)
                == s.current_value(q, m),
{
    let t = with_style(with_style(with_style(s, n, first), n, second), n, None);
    assert(s.owner_ok(n));
    assert(t.owners[n].props =~= s.owners[n].props) by {
        assert forall|q: int| 0 <= q < s.owners[n].props.len() implies t.owners[n].props[q]
            == s.owners[n].props[q] by {
            assert(s.slot_mirrors(n, q));
        }
    }
    assert(t.owners =~= s.owners);
}

/// Applying a style that is applied already changes nothing in the store.
pub proof fn lemma_same_style_again<T>(s: StoreState<T>, n: int)
    requires
        s.wf(),
        s.has_owner(n),
    ensures
        with_style(s, n, s.owners[n].style) == s,
{
    let t = with_style(s, n, s.owners[n].style);
    assert(s.owner_ok(n));
    assert(t.owners[n].props =~= s.owners[n].props) by {
        assert forall|q: int| 0 <= q < s.owners[n].props.len() implies t.owners[n].props[q]
            == s.owners[n].props[q] by {
            assert(s.slot_mirrors(n, q));
        }
    }
    assert(t.owners =~= s.owners);
}

/// The identifier that the next registration gets is registered nowhere in
/// the store. As identifiers are given out in rising order, no two
/// registrations ever share one.
pub proof fn lemma_next_handler_is_fresh<T>(s: StoreState<T>, n: int)
    requires
        s.wf(),
        s.has_owner(n),
    ensures
        forall|p: int|
            0 <= p < s.prop_layout.len() ==> {
                &&& !(#[trigger] s.prop(n, p)).value_handlers.contains(s.next_handler)
                &&& !s.prop(n, p).change_handlers.contains(s.next_handler)
            },
        forall|e: int|
            0 <= e < s.event_layout.len() ==> !(#[trigger] s.event(n, e)).handlers.contains(
                s.next_handler,
            ),
        forall|v: int|
            0 <= v < s.vec_count ==> {
                &&& !(#[trigger] s.vec(n, v)).changed_handlers.contains(s.next_handler)
                &&& !s.vec(n, v).removed_items_handlers.contains(s.next_handler)
                &&& !s.vec(n, v).inserted_items_handlers.contains(s.next_handler)
            },
{
    assert(s.owner_ok(n));
    assert forall|p: int| 0 <= p < s.prop_layout.len() implies {
        &&& !(#[trigger] s.prop(n, p)).value_handlers.contains(s.next_handler)
        &&& !s.prop(n, p).change_handlers.contains(s.next_handler)
    } by {
        assert(s.prop_ok(n, p));
    }
    assert forall|e: int| 0 <= e < s.event_layout.len() implies !(#[trigger] s.event(
        n,
        e,
    )).handlers.contains(s.next_handler) by {
        assert(s.event_ok(n, e));
    }
    assert forall|v: int| 0 <= v < s.vec_count implies {
        &&& !(#[trigger] s.vec(n, v)).changed_handlers.contains(s.next_handler)
        &&& !s.vec(n, v).removed_items_handlers.contains(s.next_handler)
        &&& !s.vec(n, v).inserted_items_handlers.contains(s.next_handler)
    } by {
        assert(s.vec_ok(n, v));
    }
}

/// A sound store is sound without the handlers of one of its owners.
pub proof fn lemma_without_handlers_wf<T>(s: StoreState<T>, n: int)
    requires
        s.wf(),
        s.has_owner(n),
    ensures
        without_handlers(s, n).wf(),
{
    let t = without_handlers(s, n);
    assert(s.owner_ok(n));
    lemma_one_owner_frame(s, t, n);
    lemma_same_frame_wf(s, t);
}

/// Teardown: once the handlers of the owner `n` are handed out, no change
/// of a property anywhere owes a call to `n`, and no modification of a
/// collection of `n` owes a call.
pub proof fn lemma_no_calls_after_teardown<T>(
    s: StoreState<T>,
    n: int,
    p: int,
    m: int,
    change: Change<T>,
    k: int,
)
    requires
        s.wf(),
        s.has_owner(n),
        s.has_owner(m),
        s.has_prop(p),
        0 <= k < without_handlers(s, n).notes(p, m, change).len(),
    ensures
        without_handlers(s, n).notes(p, m, change)[k].target.id != n,
        forall|v: int, remove: bool|
            0 <= v < s.owners[n].vecs.len() ==> #[trigger] vec_calls(
                without_handlers(s, n).vec(n, v),
                remove,
            ) == Seq::<VecNotification>::empty(),
        forall|e: int|
            0 <= e < s.owners[n].events.len() ==> (#[trigger] without_handlers(s, n).event(
                n,
                e,
            )).handlers == Seq::<u64>::empty(),
{
    let t = without_handlers(s, n);
    assert(s.owner_ok(n));
    lemma_without_handlers_wf(s, n);
    assert(t.prop(n, p).value_handlers =~= Seq::<u64>::empty());
    assert(t.prop(n, p).change_handlers =~= Seq::<u64>::empty());
    let at = t.notes_at(p, m, change);
    if k < at.len() {
        assert(at[k].target.id == m);
        if m == n {
            assert(at.len() == 0);
        }
    } else {
        lemma_told_below(t, p, m, change, 0, k - at.len());
    }
    assert forall|v: int, remove: bool| 0 <= v < s.owners[n].vecs.len() implies #[trigger] vec_calls(
        t.vec(n, v),
        remove,
    ) == Seq::<VecNotification>::empty() by {
        assert(vec_calls(t.vec(n, v), remove) =~= Seq::<VecNotification>::empty());
    }
}

/// A change that leaves the shown value the same is no change: the slot's
/// value before and after show as the same value exactly if nothing is owed.
pub proof fn lemma_slot_change_none<T>(before: Option<T>, after: Option<T>, rest: T)
    ensures
        before == after ==> slot_change(before, after, rest).is_none(),
        match slot_change(before, after, rest) {
            Some(c) => c.pair().0 != c.pair().1,
            None => true,
        },
{
    match slot_change(before, after, rest) {
        Some(c) => {
            Change::lemma_pair(c.pair().0, c.pair().1);
            let shown_before = match before {
                Some(v) => v,
                None => rest,
            };
            let shown_after = match after {
                Some(v) => v,
                None => rest,
            };
            Change::lemma_pair(shown_before, shown_after);
        },
        None => {},
    }
}

} // verus!
