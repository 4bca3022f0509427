//! The payloads of notifications.

use vstd::prelude::*;
use vstd::std_specs::cmp::PartialEqSpec;

verus! {

/// Whether `==` on `T` says that two values are the same exactly if they
/// are. The engine compares values with `==` to tell whether anything
/// changed; this is what it expects of the type.
pub open spec fn eq_is_identity<T: PartialEq>() -> bool {
    &&& T::obeys_eq_spec()
    &&& forall|a: T, b: T| (#[trigger] a.eq_spec(&b)) <==> (a == b)
}

/// The payload of a property change notification: the effective value before
/// the change and the effective value after it.
#[derive(Clone, Copy, Debug, PartialEq, Eq, PartialOrd, Ord, Hash)]
pub struct Change<T> {
    old: T,
    new: T,
}

impl<T> Change<T> {
    /// The pair `(old, new)` that this change carries.
    pub closed spec fn pair(self) -> (T, T) {
        (self.old, self.new)
    }

    /// The change that carries `old` and `new`.
    pub closed spec fn of(old: T, new: T) -> Self {
        Change { old, new }
    }

    /// A change is determined by the pair it carries.
    pub proof fn lemma_pair(old: T, new: T)
        ensures
            Self::of(old, new).pair() == (old, new),
    {
    }

    /// Two changes that carry the same pair are the same change.
    pub proof fn lemma_of_pair(self)
        ensures
            self == Self::of(self.pair().0, self.pair().1),
    {
    }

    pub fn new_self(old: T, new: T) -> (r: Self)
        ensures
            r == Self::of(old, new),
            r.pair() == (old, new),
    {
        Change { old, new }
    }

    pub fn old_value(&self) -> (r: &T)
        ensures
            *r == self.pair().0,
    {
        &self.old
    }

    pub fn into_old(self) -> (r: T)
        ensures
            r == self.pair().0,
    {
        self.old
    }

    pub fn new(&self) -> (r: &T)
        ensures
            *r == self.pair().1,
    {
        &self.new
    }

    pub fn into_new(self) -> (r: T)
        ensures
            r == self.pair().1,
    {
        self.new
    }

    pub fn into_old_new(self) -> (r: (T, T))
        ensures
            r == self.pair(),
    {
        (self.old, self.new)
    }
}

/// The payload of a collection notification: the items that were inserted or
/// removed, in the order in which they stand in the collection.
#[derive(Clone, Debug, PartialEq, Eq, PartialOrd, Ord, Hash)]
pub struct Items<T> {
    items: Vec<T>,
}

impl<T> View for Items<T> {
    type V = Seq<T>;

    closed spec fn view(&self) -> Seq<T> {
        self.items@
    }
}

impl<T> Items<T> {
    pub fn new(items: Vec<T>) -> (r: Self)
        ensures
            r@ == items@,
    {
        Items { items }
    }

    pub fn items(&self) -> (r: &Vec<T>)
        ensures
            r@ == self@,
    {
        &self.items
    }

    pub fn into_items(self) -> (r: Vec<T>)
        ensures
            r@ == self@,
    {
        self.items
    }

    pub fn len(&self) -> (r: usize)
        ensures
            r == self@.len(),
    {
        self.items.len()
    }

    pub fn is_empty(&self) -> (r: bool)
        ensures
            r == (self@.len() == 0),
    {
        self.items.len() == 0
    }
}

} // verus!
