//! The unbounded queue behind the unbounded channels.
use vstd::prelude::*;

use crossbeam_queue::SegQueue;

use crate::store::Store;
use crate::tickets::{no_tickets, pop_ticket, push_ticket, queued, ticket_queue};

verus! {

/// A first-in first-out queue without limit: tickets stand in line, their values wait in a store.
pub struct Backlog<T> {
    line: SegQueue<u64>,
    store: Store<T>,
}

impl<T> View for Backlog<T> {
    type V = Seq<T>;

    /// The values in the queue, the oldest first.
    closed spec fn view(&self) -> Seq<T> {
        Seq::new(queued(self.line).len(), |i: int| self.store@[queued(self.line)[i]])
    }
}

impl<T> Backlog<T> {
    /// Every ticket stands in line once and names a value.
    pub closed spec fn wf(&self) -> bool {
        &&& self.store.wf()
        &&& queued(self.line).no_duplicates()
        &&& forall|i: int|
            0 <= i < queued(self.line).len() ==> self.store@.contains_key(
                #[trigger] queued(self.line)[i],
            )
    }

    pub fn new() -> (r: Self)
        ensures
            r.wf(),
            r@ == Seq::<T>::empty(),
    {
        let r = Backlog { line: ticket_queue(), store: Store::new() };
        assert(r@ =~= Seq::<T>::empty());
        r
    }

    /// Appends `value`.
    pub fn push(&mut self, value: T)
        requires
            old(self).wf(),
        ensures
            final(self).wf(),
            final(self)@ == old(self)@.push(value),
    {
        let ghost before = *self;
        let ticket = self.store.insert(value);
        push_ticket(&mut self.line, ticket);
        assert forall|i: int| 0 <= i < queued(before.line).len() implies queued(self.line)[i]
            != ticket by {
            assert(before.store@.contains_key(queued(before.line)[i]));
        }
        assert(self@ =~= before@.push(value));
    }

    /// Takes the oldest value out; `None` when there is none.
    pub fn pop(&mut self) -> (r: Option<T>)
        requires
            old(self).wf(),
        ensures
            final(self).wf(),
            old(self)@.len() > 0 ==> r == Some(old(self)@[0]) && final(self)@
                == old(self)@.drop_first(),
            old(self)@.len() == 0 ==> r is None && final(self)@ == old(self)@,
    {
        let ghost before = *self;
        match pop_ticket(&mut self.line) {
            Some(ticket) => {
                let value = self.store.take(ticket);
                assert forall|i: int| 0 <= i < queued(self.line).len() implies (
                #[trigger] queued(self.line)[i]) != ticket by {
                    assert(queued(self.line)[i] == queued(before.line)[i + 1]);
                }
                assert(before.store@.contains_key(queued(before.line)[0]));
                assert(self@ =~= before@.drop_first());
                value
            },
            None => {
                assert(self@ =~= before@);
                None
            },
        }
    }

    /// Whether there is nothing to pop.
    pub fn is_empty(&self) -> (r: bool)
        ensures
            r == (self@.len() == 0),
    {
        no_tickets(&self.line)
    }
}

} // verus!
