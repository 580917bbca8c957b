//! The ring buffer behind the bounded channels.
use vstd::prelude::*;

verus! {

/// A first-in first-out buffer with a fixed number of slots.
///
/// A ring with no slots is allowed: it is empty and full at once.
pub struct BoundedRing<T> {
    slots: Vec<Option<T>>,
    head: usize,
    len: usize,
}

impl<T> View for BoundedRing<T> {
    type V = Seq<T>;

    /// The values in the ring, the oldest first.
    closed spec fn view(&self) -> Seq<T> {
        Seq::new(self.len as nat, |i: int| self.slots@[self.slot_of(i)].unwrap())
    }
}

impl<T> BoundedRing<T> {
    /// The number of slots.
    pub closed spec fn cap(&self) -> nat {
        self.slots@.len()
    }

    /// The slot of the `i`-th value.
    spec fn slot_of(&self, i: int) -> int {
        if self.head + i < self.slots@.len() {
            self.head + i
        } else {
            self.head + i - self.slots@.len()
        }
    }

    /// The number of values never exceeds the number of slots, and exactly the slots from the head
    /// on are filled.
    pub closed spec fn wf(&self) -> bool {
        &&& self.len <= self.slots@.len()
        &&& self.slots@.len() > 0 ==> self.head < self.slots@.len()
        &&& forall|i: int|
            0 <= i < self.slots@.len() ==> (#[trigger] self.slots@[self.slot_of(i)]).is_some() == (i
                < self.len)
    }

    /// An empty ring with `cap` slots.
    pub fn new(cap: usize) -> (r: Self)
        ensures
            r.wf(),
            r@ == Seq::<T>::empty(),
            r.cap() == cap,
    {
        let mut slots: Vec<Option<T>> = Vec::new();
        while slots.len() < cap
            invariant
                slots@.len() <= cap,
                forall|i: int| 0 <= i < slots@.len() ==> slots@[i] is None,
            decreases cap - slots.len(),
        {
            slots.push(None);
        }
        let r = BoundedRing { slots, head: 0, len: 0 };
        assert(r@ =~= Seq::<T>::empty());
        r
    }

    /// Appends `value`; hands it back when the ring is full, which a ring without slots always is.
    pub fn try_push(&mut self, value: T) -> (r: Result<(), T>)
        requires
            old(self).wf(),
        ensures
            final(self).wf(),
            final(self).cap() == old(self).cap(),
            old(self)@.len() < old(self).cap() ==> r is Ok && final(self)@ == old(self)@.push(
                value,
            ),
            old(self)@.len() >= old(self).cap() ==> r == Err::<(), T>(value) && final(self)@
                == old(self)@,
    {
        let cap: usize = self.slots.len();
        if self.len == cap {
            return Err(value);
        }
        let pos: usize = if self.len < cap - self.head {
            self.head + self.len
        } else {
            self.len - (cap - self.head)
        };
        assert(pos == self.slot_of(self.len as int));
        self.slots.set(pos, Some(value));
        self.len = self.len + 1;
        assert forall|i: int| 0 <= i < cap implies (#[trigger] self.slots@[self.slot_of(
            i,
        )]).is_some() == (i < self.len) by {
            assert(old(self).slots@[old(self).slot_of(i)].is_some() == (i < old(self).len));
        }
        assert(self@ =~= old(self)@.push(value));
        Ok(())
    }

    /// Takes the oldest value out; `None` when the ring is empty.
    pub fn try_pop(&mut self) -> (r: Option<T>)
        requires
            old(self).wf(),
        ensures
            final(self).wf(),
            final(self).cap() == old(self).cap(),
            old(self)@.len() > 0 ==> r == Some(old(self)@[0]) && final(self)@
                == old(self)@.drop_first(),
            old(self)@.len() == 0 ==> r is None && final(self)@ == old(self)@,
    {
        if self.len == 0 {
            return None;
        }
        let cap: usize = self.slots.len();
        assert(self.slot_of(0) == self.head);
        let mut taken: Option<T> = None;
        self.slots.set_and_swap(self.head, &mut taken);
        self.head = if self.head + 1 == cap {
            0
        } else {
            self.head + 1
        };
        self.len = self.len - 1;
        assert forall|i: int| 0 <= i < cap implies (#[trigger] self.slots@[self.slot_of(
            i,
        )]).is_some() == (i < self.len) by {
            if i + 1 < cap {
                assert(old(self).slots@[old(self).slot_of(i + 1)].is_some() == (i + 1 < old(
                    self,
                ).len));
            } else {
                assert(self.slot_of(i) == old(self).head);
            }
        }
        assert forall|i: int| 0 <= i < self.len implies self@[i] == old(self)@[i + 1] by {
            assert(self.slot_of(i) == old(self).slot_of(i + 1));
        }
        assert(self@ =~= old(self)@.drop_first());
        taken
    }

    /// Whether there is nothing to pop.
    pub fn is_empty(&self) -> (r: bool)
        ensures
            r == (self@.len() == 0),
    {
        self.len == 0
    }

    /// Whether no push can succeed; a ring without slots is always full.
    pub fn is_full(&self) -> (r: bool)
        requires
            self.wf(),
        ensures
            r == (self@.len() == self.cap()),
    {
        self.len == self.slots.len()
    }

    /// A ring never holds more values than it has slots.
    pub proof fn law_capacity_bound(&self)
        requires
            self.wf(),
        ensures
            self@.len() <= self.cap(),
    {
    }
}

} // verus!
