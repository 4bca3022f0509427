//! Lists of registered handlers, in the order of registration.

use vstd::prelude::*;

verus! {

/// Whether no identifier occurs twice in `ids`.
pub open spec fn distinct(ids: Seq<u64>) -> bool {
    forall|i: int, j: int| 0 <= i < j < ids.len() ==> ids[i] != ids[j]
}

/// Whether every identifier in `ids` is below `bound`.
pub open spec fn all_below(ids: Seq<u64>, bound: u64) -> bool {
    forall|i: int| 0 <= i < ids.len() ==> ids[i] < bound
}

/// `ids` without its first occurrence of `id`.
pub open spec fn without(ids: Seq<u64>, id: u64) -> Seq<u64> {
    if ids.contains(id) {
        ids.remove(ids.index_of(id))
    } else {
        ids
    }
}

pub proof fn lemma_without_keeps(ids: Seq<u64>, id: u64)
    requires
        distinct(ids),
    ensures
        distinct(without(ids, id)),
        !without(ids, id).contains(id),
        forall|x: u64| x != id ==> (without(ids, id).contains(x) <==> ids.contains(x)),
        forall|b: u64| all_below(ids, b) ==> all_below(without(ids, id), b),
        ids.contains(id) ==> without(ids, id).len() + 1 == ids.len(),
{
    if ids.contains(id) {
        let k = ids.index_of(id);
        let w = ids.remove(k);
        assert forall|x: u64| x != id implies (w.contains(x) <==> ids.contains(x)) by {
            if w.contains(x) {
                let i = choose|i: int| 0 <= i < w.len() && w[i] == x;
                assert(ids[if i < k { i } else { i + 1 }] == x);
            }
            if ids.contains(x) {
                let i = choose|i: int| 0 <= i < ids.len() && ids[i] == x;
                assert(w[if i < k { i } else { i - 1 }] == x);
            }
        }
        if w.contains(id) {
            let i = choose|i: int| 0 <= i < w.len() && w[i] == id;
            assert(ids[if i < k { i } else { i + 1 }] == id);
        }
    }
}

/// The registrations of one subscription point, in the order in which they
/// were made. No identifier occurs twice.
#[derive(Debug)]
pub struct HandlerList {
    ids: Vec<u64>,
}

impl View for HandlerList {
    type V = Seq<u64>;

    closed spec fn view(&self) -> Seq<u64> {
        self.ids@
    }
}

impl HandlerList {
    pub open spec fn wf(&self) -> bool {
        distinct(self@)
    }

    pub fn new() -> (r: Self)
        ensures
            r@ == Seq::<u64>::empty(),
            r.wf(),
    {
        HandlerList { ids: Vec::new() }
    }

    pub fn len(&self) -> (r: usize)
        ensures
            r == self@.len(),
    {
        self.ids.len()
    }

    pub fn is_empty(&self) -> (r: bool)
        ensures
            r == (self@.len() == 0),
    {
        self.ids.len() == 0
    }

    /// The position of `id` in the list, if it is registered.
    pub fn position(&self, id: u64) -> (r: Option<usize>)
        ensures
            match r {
                Some(k) => k < self@.len() && self@[k as int] == id,
                None => !self@.contains(id),
            },
    {
        let mut i: usize = 0;
        while i < self.ids.len()
            invariant
                i <= self.ids.len(),
                forall|j: int| 0 <= j < i ==> self.ids@[j] != id,
            decreases self.ids.len() - i,
        {
            if self.ids[i] == id {
                return Some(i);
            }
            i += 1;
        }
        None
    }

    pub fn contains(&self, id: u64) -> (r: bool)
        ensures
            r == self@.contains(id),
    {
        self.position(id).is_some()
    }

    /// Registers `id` behind the registrations that are there.
    pub fn insert(&mut self, id: u64)
        requires
            old(self).wf(),
            !old(self)@.contains(id),
        ensures
            final(self)@ == old(self)@.push(id),
            final(self).wf(),
    {
        self.ids.push(id);
    }

    /// Revokes the registration `id`; the others keep their order.
    pub fn remove(&mut self, id: u64)
        requires
            old(self).wf(),
            old(self)@.contains(id),
        ensures
            final(self)@ == without(old(self)@, id),
            final(self).wf(),
    {
        proof {
            lemma_without_keeps(self@, id);
        }
        match self.position(id) {
            Some(k) => {
                assert(self@.index_of(id) == k);
                self.ids.remove(k);
            },
            None => {},
        }
    }

    /// The registrations as they stand now, for a dispatch that later
    /// registrations and revocations must not disturb.
    pub fn snapshot(&self) -> (r: Vec<u64>)
        ensures
            r@ == self@,
    {
        let mut out: Vec<u64> = Vec::new();
        let mut i: usize = 0;
        while i < self.ids.len()
            invariant
                i <= self.ids.len(),
                out@ == self.ids@.take(i as int),
            decreases self.ids.len() - i,
        {
            out.push(self.ids[i]);
            proof {
                assert(self.ids@.take(i + 1) =~= self.ids@.take(i as int).push(self.ids@[i as int]));
            }
            i += 1;
        }
        proof {
            assert(self.ids@.take(self.ids@.len() as int) =~= self.ids@);
        }
        out
    }

    /// Moves every registration to the end of `handlers` and leaves the list
    /// empty.
    pub fn take_all(&mut self, handlers: &mut Vec<u64>)
        ensures
            final(self)@ == Seq::<u64>::empty(),
            final(self).wf(),
            final(handlers)@ == old(handlers)@ + old(self)@,
    {
        let mut i: usize = 0;
        while i < self.ids.len()
            invariant
                i <= self.ids.len(),
                self.ids@ == old(self).ids@,
                handlers@ == old(handlers)@ + self.ids@.take(i as int),
            decreases self.ids.len() - i,
        {
            handlers.push(self.ids[i]);
            proof {
                assert(self.ids@.take(i + 1) =~= self.ids@.take(i as int).push(self.ids@[i as int]));
                assert(handlers@ =~= old(handlers)@ + self.ids@.take(i + 1));
            }
            i += 1;
        }
        proof {
            assert(self.ids@.take(self.ids@.len() as int) =~= self.ids@);
        }
        self.ids = Vec::new();
    }
}

} // verus!
