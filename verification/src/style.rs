//! Styles: sorted sets of property overrides.

use crate::prop::DepProp;
use vstd::prelude::*;

verus! {

/// Whether the setters stand in strictly rising order of their properties'
/// offsets, so that no property has two of them.
pub open spec fn sorted_by_offset<T>(s: Seq<(usize, T)>) -> bool {
    forall|i: int, j: int| 0 <= i < j < s.len() ==> s[i].0 < s[j].0
}

/// Whether `s` holds a setter for the property at `offset`.
pub open spec fn has_offset<T>(s: Seq<(usize, T)>, offset: usize) -> bool {
    exists|i: int| 0 <= i < s.len() && #[trigger] s[i].0 == offset
}

/// The value that `s` sets the property at `offset` to, if it sets it.
pub open spec fn value_at<T>(s: Seq<(usize, T)>, offset: usize) -> Option<T> {
    if has_offset(s, offset) {
        Some(s[choose|i: int| 0 <= i < s.len() && #[trigger] s[i].0 == offset].1)
    } else {
        None
    }
}

/// The value that an optional style sets the property at `offset` to.
pub open spec fn styled<T>(s: Option<Seq<(usize, T)>>, offset: usize) -> Option<T> {
    match s {
        Some(setters) => value_at(setters, offset),
        None => None,
    }
}

/// In sorted setters the setter at position `i` is the one for its offset.
pub proof fn lemma_value_at_index<T>(s: Seq<(usize, T)>, i: int)
    requires
        sorted_by_offset(s),
        0 <= i < s.len(),
    ensures
        has_offset(s, s[i].0),
        value_at(s, s[i].0) == Some(s[i].1),
{
    assert(s[i].0 == s[i].0);
    let k = choose|k: int| 0 <= k < s.len() && #[trigger] s[k].0 == s[i].0;
    assert(k == i) by {
        if k < i {
            assert(s[k].0 < s[i].0);
        }
        if i < k {
            assert(s[i].0 < s[k].0);
        }
    }
}

/// Sorted setters are determined by what they set each property to.
pub proof fn lemma_sorted_determined<T>(a: Seq<(usize, T)>, b: Seq<(usize, T)>)
    requires
        sorted_by_offset(a),
        sorted_by_offset(b),
        forall|o: usize| value_at(a, o) == value_at(b, o),
    ensures
        a == b,
    decreases a.len(),
{
    if a.len() == 0 {
        if b.len() > 0 {
            lemma_value_at_index(b, 0);
            assert(value_at(a, b[0].0) == value_at(b, b[0].0));
            assert(!has_offset(a, b[0].0));
        }
        assert(a =~= b);
    } else if b.len() == 0 {
        lemma_value_at_index(a, 0);
        assert(value_at(a, a[0].0) == value_at(b, a[0].0));
        assert(!has_offset(b, a[0].0));
    } else {
        let la = a.len() - 1;
        let lb = b.len() - 1;
        lemma_value_at_index(a, la);
        lemma_value_at_index(b, lb);
        assert(value_at(b, a[la].0) == Some(a[la].1));
        assert(value_at(a, b[lb].0) == Some(b[lb].1));
        assert(has_offset(b, a[la].0));
        assert(has_offset(a, b[lb].0));
        let kb = choose|k: int| 0 <= k < b.len() && #[trigger] b[k].0 == a[la].0;
        let ka = choose|k: int| 0 <= k < a.len() && #[trigger] a[k].0 == b[lb].0;
        assert(a[la].0 == b[lb].0) by {
            if kb < lb {
                assert(b[kb].0 < b[lb].0);
            }
            if ka < la {
                assert(a[ka].0 < a[la].0);
            }
        }
        assert(a[la] == b[lb]);
        let a0 = a.drop_last();
        let b0 = b.drop_last();
        assert forall|o: usize| value_at(a0, o) == value_at(b0, o) by {
            lemma_drop_last_value_at(a, o);
            lemma_drop_last_value_at(b, o);
        }
        lemma_sorted_determined(a0, b0);
        assert(a =~= a0.push(a[la]));
        assert(b =~= b0.push(b[lb]));
    }
}

/// What sorted setters without their last one set each property to.
pub proof fn lemma_drop_last_value_at<T>(s: Seq<(usize, T)>, o: usize)
    requires
        sorted_by_offset(s),
        s.len() > 0,
    ensures
        sorted_by_offset(s.drop_last()),
        value_at(s.drop_last(), o) == if o == s.last().0 {
            None
        } else {
            value_at(s, o)
        },
{
    let d = s.drop_last();
    assert(sorted_by_offset(d)) by {
        assert forall|i: int, j: int| 0 <= i < j < d.len() implies d[i].0 < d[j].0 by {
            assert(s[i].0 < s[j].0);
        }
    }
    if has_offset(d, o) {
        let k = choose|k: int| 0 <= k < d.len() && #[trigger] d[k].0 == o;
        lemma_value_at_index(d, k);
        assert(s[k].0 == o);
        lemma_value_at_index(s, k);
        assert(s[k].0 < s[s.len() - 1].0);
    } else if has_offset(s, o) {
        let k = choose|k: int| 0 <= k < s.len() && #[trigger] s[k].0 == o;
        if k < d.len() {
            assert(d[k].0 == o);
        }
    }
}

/// What an optional style sets: the setters of the style, if there is one.
pub open spec fn style_view<T: Copy>(style: Option<Style<T>>) -> Option<Seq<(usize, T)>> {
    match style {
        Some(s) => Some(s@),
        None => None,
    }
}

/// `Vec::capacity`: the number of items that the vector can hold without
/// allocating again. It is at least the number of items that it holds.
#[verifier::external_body]
fn vec_capacity<T>(v: &Vec<T>) -> (r: usize)
    ensures
        r >= v@.len(),
{
    v.capacity()
}

/// `Vec::shrink_to`: gives back capacity that is not needed, down to a lower
/// bound. The items stay as they are.
#[verifier::external_body]
fn vec_shrink_to<T>(v: &mut Vec<T>, min_capacity: usize)
    ensures
        final(v)@ == old(v)@,
{
    v.shrink_to(min_capacity)
}

/// `Vec::shrink_to_fit`: gives back capacity that is not needed. The items
/// stay as they are.
#[verifier::external_body]
fn vec_shrink_to_fit<T>(v: &mut Vec<T>)
    ensures
        final(v)@ == old(v)@,
{
    v.shrink_to_fit()
}

/// One override of a style: a property and the value that the style gives it.
#[derive(Clone, Copy, Debug)]
pub struct Setter<T> {
    pub(crate) prop: DepProp,
    pub(crate) value: T,
}

impl<T: Copy> Setter<T> {
    pub open(crate) spec fn pair(self) -> (usize, T) {
        (self.prop.offset, self.value)
    }

    pub fn prop_offset(&self) -> (r: usize)
        ensures
            r == self.pair().0,
    {
        self.prop.offset
    }

    pub fn value(&self) -> (r: T)
        ensures
            r == self.pair().1,
    {
        self.value
    }
}

/// A dictionary from some of an owner's properties to values. An owner has at
/// most one style applied at any moment.
#[derive(Debug)]
pub struct Style<T> {
    pub(crate) setters: Vec<Setter<T>>,
}

impl<T: Copy> View for Style<T> {
    type V = Seq<(usize, T)>;

    open(crate) spec fn view(&self) -> Seq<(usize, T)> {
        Seq::new(self.setters@.len(), |i: int| self.setters@[i].pair())
    }
}

impl<T: Copy> Default for Style<T> {
    fn default() -> (r: Self)
        ensures
            r@ == Seq::<(usize, T)>::empty(),
    {
        Style::new()
    }
}

impl<T: Copy> Clone for Style<T> {
    fn clone(&self) -> (r: Self)
        ensures
            r@ == self@,
    {
        let mut setters: Vec<Setter<T>> = Vec::new();
        let mut i: usize = 0;
        while i < self.setters.len()
            invariant
                i <= self.setters@.len(),
                setters@ == self.setters@.take(i as int),
            decreases self.setters@.len() - i,
        {
            setters.push(self.setters[i]);
            proof {
                assert(self.setters@.take(i + 1) =~= self.setters@.take(i as int).push(
                    self.setters@[i as int],
                ));
            }
            i += 1;
        }
        proof {
            assert(self.setters@.take(self.setters@.len() as int) =~= self.setters@);
        }
        let r = Style { setters };
        proof {
            assert(r@ =~= self@);
        }
        r
    }
}

impl<T: Copy> Style<T> {
    /// The setters are sorted by their properties' offsets.
    pub open spec fn wf(&self) -> bool {
        sorted_by_offset(self@)
    }

    pub fn new() -> (r: Self)
        ensures
            r@ == Seq::<(usize, T)>::empty(),
            r.wf(),
    {
        let r = Style { setters: Vec::new() };
        proof {
            assert(r@ =~= Seq::<(usize, T)>::empty());
        }
        r
    }

    pub fn with_capacity(capacity: usize) -> (r: Self)
        ensures
            r@ == Seq::<(usize, T)>::empty(),
            r.wf(),
    {
        let r = Style { setters: Vec::with_capacity(capacity) };
        proof {
            assert(r@ =~= Seq::<(usize, T)>::empty());
        }
        r
    }

    pub fn clear(&mut self)
        ensures
            final(self)@ == Seq::<(usize, T)>::empty(),
            final(self).wf(),
    {
        self.setters.clear();
        proof {
            assert(self@ =~= Seq::<(usize, T)>::empty());
        }
    }

    pub fn is_empty(&self) -> (r: bool)
        ensures
            r == (self@.len() == 0),
    {
        self.setters.is_empty()
    }

    pub fn len(&self) -> (r: usize)
        ensures
            r == self@.len(),
    {
        self.setters.len()
    }

    /// The setter at position `index`, counted in rising order of offsets.
    pub fn setter(&self, index: usize) -> (r: Setter<T>)
        requires
            index < self@.len(),
        ensures
            r.pair() == self@[index as int],
    {
        self.setters[index]
    }

    /// Where the setter for `offset` stands, or where it would have to be
    /// put.
    pub fn search(&self, offset: usize) -> (r: Result<usize, usize>)
        requires
            self.wf(),
        ensures
            match r {
                Ok(i) => i < self@.len() && self@[i as int].0 == offset && has_offset(
                    self@,
                    offset,
                ),
                Err(i) => {
                    &&& i <= self@.len()
                    &&& !has_offset(self@, offset)
                    &&& forall|j: int| 0 <= j < i ==> self@[j].0 < offset
                    &&& forall|j: int| i <= j < self@.len() ==> self@[j].0 > offset
                },
            },
    {
        let mut lo: usize = 0;
        let mut hi: usize = self.setters.len();
        while lo < hi
            invariant
                self.wf(),
                lo <= hi <= self@.len(),
                self@.len() == self.setters@.len(),
                forall|j: int| 0 <= j < lo ==> self@[j].0 < offset,
                forall|j: int| hi <= j < self@.len() ==> self@[j].0 > offset,
            decreases hi - lo,
        {
            let mid = lo + (hi - lo) / 2;
            let at = self.setters[mid].prop.offset;
            assert(at == self@[mid as int].0);
            if at == offset {
                return Ok(mid);
            } else if at < offset {
                assert forall|j: int| 0 <= j < mid + 1 implies self@[j].0 < offset by {
                    if j < mid {
                        assert(self@[j].0 < self@[mid as int].0);
                    }
                }
                lo = mid + 1;
            } else {
                assert forall|j: int| mid <= j < self@.len() implies self@[j].0 > offset by {
                    if mid < j {
                        assert(self@[mid as int].0 < self@[j].0);
                    }
                }
                hi = mid;
            }
        }
        Err(lo)
    }

    pub fn contains_prop(&self, prop: DepProp) -> (r: bool)
        requires
            self.wf(),
        ensures
            r == has_offset(self@, prop.offset()),
    {
        self.search(prop.offset).is_ok()
    }

    /// The value that the style gives to `prop`, if it sets it.
    pub fn get(&self, prop: DepProp) -> (r: Option<T>)
        requires
            self.wf(),
        ensures
            r == value_at(self@, prop.offset()),
    {
        match self.search(prop.offset) {
            Ok(i) => {
                proof {
                    lemma_value_at_index(self@, i as int);
                }
                Some(self.setters[i].value)
            },
            Err(_) => None,
        }
    }

    /// Gives `prop` the value `value` in this style. Returns whether the
    /// style already had a setter for `prop`, which the new one replaces.
    pub fn insert(&mut self, prop: DepProp, value: T) -> (r: bool)
        requires
            old(self).wf(),
        ensures
            final(self).wf(),
            r == has_offset(old(self)@, prop.offset()),
            final(self)@.len() == old(self)@.len() + if r { 0int } else { 1int },
            forall|o: usize|
                value_at(final(self)@, o) == if o == prop.offset() {
                    Some(value)
                } else {
                    value_at(old(self)@, o)
                },
    {
        let setter = Setter { prop, value };
        let ghost before = self@;
        match self.search(prop.offset) {
            Ok(index) => {
                self.setters[index] = setter;
                proof {
                    let after = self@;
                    assert(after =~= before.update(index as int, (prop.offset, value)));
                    lemma_update_value_at(before, index as int, value);
                }
                true
            },
            Err(index) => {
                self.setters.insert(index, setter);
                proof {
                    let after = self@;
                    assert(after =~= before.insert(index as int, (prop.offset, value)));
                    lemma_insert_value_at(before, index as int, prop.offset, value);
                }
                false
            },
        }
    }

    /// Takes the setter for `prop` out of this style. Returns whether there
    /// was one.
    pub fn remove(&mut self, prop: DepProp) -> (r: bool)
        requires
            old(self).wf(),
        ensures
            final(self).wf(),
            r == has_offset(old(self)@, prop.offset()),
            final(self)@.len() == old(self)@.len() - if r { 1int } else { 0int },
            forall|o: usize|
                value_at(final(self)@, o) == if o == prop.offset() {
                    None
                } else {
                    value_at(old(self)@, o)
                },
    {
        let ghost before = self@;
        match self.search(prop.offset) {
            Ok(index) => {
                self.setters.remove(index);
                proof {
                    let after = self@;
                    assert(after =~= before.remove(index as int));
                    lemma_remove_value_at(before, index as int);
                }
                true
            },
            Err(_) => false,
        }
    }

    /// The number of setters that the style can hold without allocating
    /// again.
    pub fn capacity(&self) -> (r: usize)
        ensures
            r >= self@.len(),
    {
        vec_capacity(&self.setters)
    }

    pub fn reserve(&mut self, additional: usize)
        ensures
            final(self)@ == old(self)@,
    {
        self.setters.reserve(additional);
        proof {
            assert(self@ =~= old(self)@);
        }
    }

    pub fn shrink_to(&mut self, min_capacity: usize)
        ensures
            final(self)@ == old(self)@,
    {
        vec_shrink_to(&mut self.setters, min_capacity);
        proof {
            assert(self@ =~= old(self)@);
        }
    }

    pub fn shrink_to_fit(&mut self)
        ensures
            final(self)@ == old(self)@,
    {
        vec_shrink_to_fit(&mut self.setters);
        proof {
            assert(self@ =~= old(self)@);
        }
    }

    /// Tries to make room for `additional` more setters. Whether or not it
    /// succeeds, the style stays as it is. It succeeds where no room is
    /// asked for; else the allocator decides.
    pub fn try_reserve(&mut self, additional: usize) -> (r: Result<
        (),
        std::collections::TryReserveError,
    >)
        ensures
            final(self)@ == old(self)@,
            additional == 0 ==> r.is_ok(),
    {
        if additional == 0 {
            return Ok(());
        }
        let r = self.setters.try_reserve(additional);
        proof {
            assert(self@ =~= old(self)@);
        }
        r
    }
}

/// What sorted setters set after the value of the setter at `i` is replaced.
pub proof fn lemma_update_value_at<T>(s: Seq<(usize, T)>, i: int, value: T)
    requires
        sorted_by_offset(s),
        0 <= i < s.len(),
    ensures
        sorted_by_offset(s.update(i, (s[i].0, value))),
        forall|o: usize|
            value_at(s.update(i, (s[i].0, value)), o) == if o == s[i].0 {
                Some(value)
            } else {
                value_at(s, o)
            },
{
    let u = s.update(i, (s[i].0, value));
    assert(sorted_by_offset(u)) by {
        assert forall|a: int, b: int| 0 <= a < b < u.len() implies u[a].0 < u[b].0 by {
            assert(s[a].0 < s[b].0);
        }
    }
    assert forall|o: usize|
        value_at(u, o) == if o == s[i].0 {
            Some(value)
        } else {
            value_at(s, o)
        } by {
        if has_offset(u, o) {
            let k = choose|k: int| 0 <= k < u.len() && #[trigger] u[k].0 == o;
            lemma_value_at_index(u, k);
            assert(s[k].0 == o);
            lemma_value_at_index(s, k);
            if k != i && o == s[i].0 {
                if k < i {
                    assert(s[k].0 < s[i].0);
                } else {
                    assert(s[i].0 < s[k].0);
                }
            }
        } else if has_offset(s, o) {
            let k = choose|k: int| 0 <= k < s.len() && #[trigger] s[k].0 == o;
            assert(u[k].0 == o);
        }
    }
}

/// What sorted setters set after a setter for a new offset is put in its
/// place.
pub proof fn lemma_insert_value_at<T>(s: Seq<(usize, T)>, i: int, offset: usize, value: T)
    requires
        sorted_by_offset(s),
        0 <= i <= s.len(),
        forall|j: int| 0 <= j < i ==> s[j].0 < offset,
        forall|j: int| i <= j < s.len() ==> s[j].0 > offset,
    ensures
        sorted_by_offset(s.insert(i, (offset, value))),
        forall|o: usize|
            value_at(s.insert(i, (offset, value)), o) == if o == offset {
                Some(value)
            } else {
                value_at(s, o)
            },
{
    let u = s.insert(i, (offset, value));
    assert(sorted_by_offset(u)) by {
        assert forall|a: int, b: int| 0 <= a < b < u.len() implies u[a].0 < u[b].0 by {
            if a < i && b > i {
                assert(s[a].0 < offset);
                assert(s[b - 1].0 > offset);
            } else if a < i && b < i {
                assert(s[a].0 < s[b].0);
            } else if a > i {
                assert(s[a - 1].0 < s[b - 1].0);
            }
        }
    }
    assert forall|o: usize|
        value_at(u, o) == if o == offset {
            Some(value)
        } else {
            value_at(s, o)
        } by {
        if has_offset(u, o) {
            let k = choose|k: int| 0 <= k < u.len() && #[trigger] u[k].0 == o;
            lemma_value_at_index(u, k);
            if k < i {
                assert(s[k].0 == o);
                lemma_value_at_index(s, k);
            } else if k > i {
                assert(s[k - 1].0 == o);
                lemma_value_at_index(s, k - 1);
            }
        } else if has_offset(s, o) {
            let k = choose|k: int| 0 <= k < s.len() && #[trigger] s[k].0 == o;
            if k < i {
                assert(u[k].0 == o);
            } else {
                assert(u[k + 1].0 == o);
            }
        } else {
            assert(u[i].0 == offset);
        }
    }
}

/// What sorted setters set after the setter at `i` is taken out.
pub proof fn lemma_remove_value_at<T>(s: Seq<(usize, T)>, i: int)
    requires
        sorted_by_offset(s),
        0 <= i < s.len(),
    ensures
        sorted_by_offset(s.remove(i)),
        forall|o: usize|
            value_at(s.remove(i), o) == if o == s[i].0 {
                None
            } else {
                value_at(s, o)
            },
{
    let u = s.remove(i);
    assert(sorted_by_offset(u)) by {
        assert forall|a: int, b: int| 0 <= a < b < u.len() implies u[a].0 < u[b].0 by {
            let sa = if a < i { a } else { a + 1 };
            let sb = if b < i { b } else { b + 1 };
            assert(s[sa].0 < s[sb].0);
        }
    }
    assert forall|o: usize|
        value_at(u, o) == if o == s[i].0 {
            None
        } else {
            value_at(s, o)
        } by {
        if has_offset(u, o) {
            let k = choose|k: int| 0 <= k < u.len() && #[trigger] u[k].0 == o;
            lemma_value_at_index(u, k);
            let sk = if k < i { k } else { k + 1 };
            assert(s[sk].0 == o);
            lemma_value_at_index(s, sk);
            if sk < i {
                assert(s[sk].0 < s[i].0);
            } else {
                assert(s[i].0 < s[sk].0);
            }
        } else if has_offset(s, o) {
            let k = choose|k: int| 0 <= k < s.len() && #[trigger] s[k].0 == o;
            if k < i {
                assert(u[k].0 == o);
            } else if k > i {
                assert(u[k - 1].0 == o);
            }
        }
    }
}

} // verus!
