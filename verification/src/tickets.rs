//! The concurrent containers that carry tickets: an unbounded queue and an optional cell.
//!
//! The queue is `crossbeam_queue::SegQueue` and the cell is `arc_swap::ArcSwapOption`. Both come
//! from outside this crate; the contracts below state what is relied upon of them.
use vstd::prelude::*;

use std::sync::Arc;

use arc_swap::ArcSwapOption;
use crossbeam_queue::SegQueue;

verus! {

/// `crossbeam_queue::SegQueue`, an unbounded first-in first-out queue.
#[verifier::external_type_specification]
#[verifier::external_body]
#[verifier::reject_recursive_types(T)]
pub struct ExSegQueue<T>(SegQueue<T>);

/// The tickets in a queue, the next one to leave first.
pub uninterp spec fn queued(queue: SegQueue<u64>) -> Seq<u64>;

/// `SegQueue::new`: creates a queue that holds nothing.
#[verifier::external_body]
pub(crate) fn ticket_queue() -> (queue: SegQueue<u64>)
    ensures
        queued(queue) == Seq::<u64>::empty(),
{
    SegQueue::new()
}

/// `SegQueue::push`: puts `ticket` at the tail of the queue.
#[verifier::external_body]
pub(crate) fn push_ticket(queue: &mut SegQueue<u64>, ticket: u64)
    ensures
        queued(*final(queue)) == queued(*old(queue)).push(ticket),
{
    queue.push(ticket)
}

/// `SegQueue::pop`: takes the ticket at the head of the queue; `None` exactly when the queue is
/// empty.
#[verifier::external_body]
pub(crate) fn pop_ticket(queue: &mut SegQueue<u64>) -> (ticket: Option<u64>)
    ensures
        queued(*old(queue)).len() == 0 ==> ticket is None && queued(*final(queue)) == queued(
            *old(queue),
        ),
        queued(*old(queue)).len() > 0 ==> ticket == Some(queued(*old(queue))[0]) && queued(
            *final(queue),
        ) == queued(*old(queue)).drop_first(),
{
    queue.pop()
}

/// `SegQueue::is_empty`: whether the queue holds no ticket.
#[verifier::external_body]
pub(crate) fn no_tickets(queue: &SegQueue<u64>) -> (empty: bool)
    ensures
        empty == (queued(*queue).len() == 0),
{
    queue.is_empty()
}

/// An `arc_swap::ArcSwapOption`: a cell that holds one ticket or none.
///
/// The struct is opaque because the type behind the alias has a parameter without a public name.
#[verifier::external_body]
pub struct TicketCell {
    inner: ArcSwapOption<u64>,
}

/// The ticket in a cell.
pub uninterp spec fn held(cell: TicketCell) -> Option<u64>;

impl TicketCell {
    /// `ArcSwapOption::empty`: creates a cell that holds nothing.
    #[verifier::external_body]
    pub(crate) fn empty() -> (cell: Self)
        ensures
            held(cell) == None::<u64>,
    {
        TicketCell { inner: ArcSwapOption::empty() }
    }

    /// `ArcSwapOption::store`: replaces what the cell holds by `ticket`.
    #[verifier::external_body]
    pub(crate) fn store(&mut self, ticket: Option<u64>)
        ensures
            held(*final(self)) == ticket,
    {
        self.inner.store(ticket.map(Arc::new))
    }

    /// `ArcSwapOption::swap`: replaces what the cell holds by `ticket` and returns what it held.
    #[verifier::external_body]
    pub(crate) fn swap(&mut self, ticket: Option<u64>) -> (previous: Option<u64>)
        ensures
            previous == held(*old(self)),
            held(*final(self)) == ticket,
    {
        self.inner.swap(ticket.map(Arc::new)).as_deref().copied()
    }

    /// `ArcSwapOption::load_full`: what the cell holds.
    #[verifier::external_body]
    pub(crate) fn load_full(&self) -> (ticket: Option<u64>)
        ensures
            ticket == held(*self),
    {
        self.inner.load_full().as_deref().copied()
    }
}

} // verus!
