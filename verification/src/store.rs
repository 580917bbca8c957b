//! Payload storage addressed by tickets.
//!
//! The concurrent containers a channel is built on carry plain `u64` tickets. The values that
//! travel through the channel wait in a [`Store`] and are found again by their ticket. A ticket
//! names one value from the `insert` that hands it out to the `take` that redeems it; afterwards
//! it may be handed out again.
use vstd::prelude::*;

verus! {

/// A slab of values, each addressed by the ticket that `insert` returned for it.
pub struct Store<T> {
    /// One entry per ticket ever handed out; `None` while the ticket is free.
    slots: Vec<Option<T>>,
    /// Tickets that can be handed out again.
    free: Vec<u64>,
}

impl<T> View for Store<T> {
    type V = Map<u64, T>;

    /// The values in the store by ticket.
    closed spec fn view(&self) -> Map<u64, T> {
        Map::new(
            |t: u64| t < self.slots@.len() && self.slots@[t as int] is Some,
            |t: u64| self.slots@[t as int]->0,
        )
    }
}

impl<T> Store<T> {
    /// Every free ticket is listed once and names an empty slot.
    pub closed spec fn wf(&self) -> bool {
        &&& self.free@.no_duplicates()
        &&& forall|i: int|
            0 <= i < self.free@.len() ==> (#[trigger] self.free@[i]) < self.slots@.len()
                && self.slots@[self.free@[i] as int] is None
    }

    /// An empty store.
    pub fn new() -> (r: Self)
        ensures
            r.wf(),
            r@ == Map::<u64, T>::empty(),
    {
        let r = Store { slots: Vec::new(), free: Vec::new() };
        assert(r@ =~= Map::<u64, T>::empty());
        r
    }

    /// Puts `value` into the store and returns a ticket that was not in use.
    pub fn insert(&mut self, value: T) -> (ticket: u64)
        requires
            old(self).wf(),
        ensures
            final(self).wf(),
            !old(self)@.contains_key(ticket),
            final(self)@ == old(self)@.insert(ticket, value),
    {
        let ghost before = *self;
        let ticket: u64 = match self.free.pop() {
            Some(t) => {
                assert(before.free@[before.free@.len() - 1] == t);
                self.slots.set(t as usize, Some(value));
                assert forall|i: int| 0 <= i < self.free@.len() implies (#[trigger] self.free@[i])
                    < self.slots@.len() && self.slots@[self.free@[i] as int] is None by {
                    assert(self.free@[i] == before.free@[i]);
                    assert(before.free@[i] != before.free@[before.free@.len() - 1]);
                }
                t
            },
            None => {
                let t: u64 = self.slots.len() as u64;
                self.slots.push(Some(value));
                t
            },
        };
        assert(self@ =~= before@.insert(ticket, value));
        ticket
    }

    /// Redeems `ticket`: takes its value out of the store, if it names one.
    pub fn take(&mut self, ticket: u64) -> (value: Option<T>)
        requires
            old(self).wf(),
        ensures
            final(self).wf(),
            final(self)@ == old(self)@.remove(ticket),
            value == (if old(self)@.contains_key(ticket) {
                Some(old(self)@[ticket])
            } else {
                None
            }),
    {
        let ghost before = *self;
        if ticket >= self.slots.len() as u64 {
            assert(self@ =~= before@.remove(ticket));
            return None;
        }
        let mut value: Option<T> = None;
        self.slots.set_and_swap(ticket as usize, &mut value);
        if value.is_some() {
            self.free.push(ticket);
            assert forall|i: int, j: int|
                0 <= i < self.free@.len() && 0 <= j < self.free@.len() && i
                    != j implies self.free@[i] != self.free@[j] by {
                if i < before.free@.len() {
                    assert(self.free@[i] == before.free@[i]);
                }
                if j < before.free@.len() {
                    assert(self.free@[j] == before.free@[j]);
                }
            }
            assert forall|i: int| 0 <= i < self.free@.len() implies (#[trigger] self.free@[i])
                < self.slots@.len() && self.slots@[self.free@[i] as int] is None by {
                if i < before.free@.len() {
                    assert(self.free@[i] == before.free@[i]);
                }
            }
        }
        assert(self@ =~= before@.remove(ticket));
        value
    }

    /// The value that `ticket` names, if any.
    pub fn get(&self, ticket: u64) -> (value: Option<&T>)
        ensures
            value == (if self@.contains_key(ticket) {
                Some(&self@[ticket])
            } else {
                None
            }),
    {
        if ticket >= self.slots.len() as u64 {
            None
        } else {
            self.slots[ticket as usize].as_ref()
        }
    }

    /// Replaces the value that `ticket` names and returns the old one; does nothing if it names
    /// none.
    pub fn replace(&mut self, ticket: u64, value: T) -> (previous: Option<T>)
        requires
            old(self).wf(),
        ensures
            final(self).wf(),
            final(self)@ == (if old(self)@.contains_key(ticket) {
                old(self)@.insert(ticket, value)
            } else {
                old(self)@
            }),
            previous == (if old(self)@.contains_key(ticket) {
                Some(old(self)@[ticket])
            } else {
                None
            }),
    {
        let ghost before = *self;
        if ticket < self.slots.len() as u64 && self.slots[ticket as usize].is_some() {
            let mut previous: Option<T> = Some(value);
            self.slots.set_and_swap(ticket as usize, &mut previous);
            assert(self@ =~= before@.insert(ticket, value));
            previous
        } else {
            None
        }
    }
}

} // verus!
