//! State that every channel flavour keeps beside its messages, and what a step of a blocking
//! operation can lead to.
use vstd::prelude::*;

use crate::waiter::{
    drain_select_waiters, law_without_is_a_filter, new_recv_waiter_list, pending,
    wake_all_recv_waiters, wake_select_all, without, woken_all, Board, BoardView, RecvWaiter,
    RecvWaiterList, SelectStack, SelectWaiter,
};

verus! {

/// What a step of a blocking operation led to.
pub enum Step<R, W> {
    /// The operation is over, with this result.
    Done(R),
    /// The thread has to wait. The token belongs to the wait and goes into the next step.
    Wait(W),
}

/// The two sides of a channel at which a select can wait.
#[derive(Debug, Clone, Copy, PartialEq, Eq, Structural)]
pub enum Port {
    /// Recv arms wait here for messages.
    Recv,
    /// Send arms wait here for room.
    Send,
}

/// The waiters and the handle counts of a channel.
pub struct Ports {
    /// Threads blocked in a receive.
    pub recv_waiters: RecvWaiterList,
    /// Recv arms of waiting selects.
    pub select_waiters: SelectStack,
    /// Number of live sender handles.
    pub sender_count: usize,
    /// Number of live receiver handles.
    pub receiver_count: usize,
}

/// The contents of [`Ports`].
#[verifier::ext_equal]
pub struct PortsView {
    pub recv_waiters: Seq<RecvWaiter>,
    pub select_waiters: Seq<SelectWaiter>,
    pub senders: nat,
    pub receivers: nat,
}

impl View for Ports {
    type V = PortsView;

    open spec fn view(&self) -> PortsView {
        PortsView {
            recv_waiters: self.recv_waiters@,
            select_waiters: self.select_waiters@,
            senders: self.sender_count as nat,
            receivers: self.receiver_count as nat,
        }
    }
}

impl PortsView {
    /// One sender, one receiver, nobody waiting.
    pub open spec fn fresh() -> PortsView {
        PortsView {
            recv_waiters: Seq::empty(),
            select_waiters: Seq::empty(),
            senders: 1,
            receivers: 1,
        }
    }

    pub open spec fn sender_added(self) -> PortsView {
        PortsView { senders: self.senders + 1, ..self }
    }

    pub open spec fn receiver_added(self) -> PortsView {
        PortsView { receivers: self.receivers + 1, ..self }
    }

    /// After a sender handle went away; the last one takes the select waiters along.
    pub open spec fn sender_closed(self) -> PortsView {
        PortsView {
            senders: (self.senders - 1) as nat,
            select_waiters: if self.senders == 1 {
                Seq::empty()
            } else {
                self.select_waiters
            },
            ..self
        }
    }

    /// Whom the going away of a sender handle wakes: with the last one, everybody who waits to
    /// receive.
    pub open spec fn sender_closed_wakes(self, b: BoardView) -> BoardView {
        if self.senders == 1 {
            woken_all(pending(self.select_waiters), woken_all(self.recv_waiters, b))
        } else {
            b
        }
    }

    /// After a receiver handle went away; the last one takes the select waiters along.
    pub open spec fn receiver_closed(self) -> PortsView {
        PortsView {
            receivers: (self.receivers - 1) as nat,
            select_waiters: if self.receivers == 1 {
                Seq::empty()
            } else {
                self.select_waiters
            },
            ..self
        }
    }

    /// With one more thread blocked in a receive.
    pub open spec fn waiting(self, waiter: RecvWaiter) -> PortsView {
        PortsView { recv_waiters: self.recv_waiters.push(waiter), ..self }
    }

    /// Without the blocked receive of the given cell.
    pub open spec fn released(self, cell: u64) -> PortsView {
        PortsView { recv_waiters: without(self.recv_waiters, cell), ..self }
    }

    /// After the select waiters were taken off to be woken.
    pub open spec fn select_drained(self) -> PortsView {
        PortsView { select_waiters: Seq::empty(), ..self }
    }
}

impl Ports {
    pub fn new() -> (r: Self)
        ensures
            r@ == PortsView::fresh(),
    {
        Ports {
            recv_waiters: new_recv_waiter_list(),
            select_waiters: SelectStack::new(),
            sender_count: 1,
            receiver_count: 1,
        }
    }

    /// Counts another sender handle.
    pub fn add_sender(&mut self)
        requires
            old(self)@.senders < usize::MAX,
        ensures
            final(self)@ == old(self)@.sender_added(),
    {
        self.sender_count = self.sender_count + 1;
    }

    /// Counts another receiver handle.
    pub fn add_receiver(&mut self)
        requires
            old(self)@.receivers < usize::MAX,
        ensures
            final(self)@ == old(self)@.receiver_added(),
    {
        self.receiver_count = self.receiver_count + 1;
    }

    /// Uncounts a sender handle. With the last one everybody who waits to receive is woken, to see
    /// that the channel is disconnected.
    pub fn close_sender(&mut self, board: &mut Board)
        requires
            old(board).wf(),
            old(self)@.senders > 0,
        ensures
            final(board).wf(),
            final(self)@ == old(self)@.sender_closed(),
            final(board)@ == old(self)@.sender_closed_wakes(old(board)@),
    {
        let prev: usize = self.sender_count;
        self.sender_count = prev - 1;
        if prev == 1 {
            wake_all_recv_waiters(&self.recv_waiters, board);
            wake_select_all(&mut self.select_waiters, board);
        }
    }

    /// Uncounts a receiver handle; whether it was the last one. With the last one the recv arms of
    /// waiting selects are dropped.
    pub fn close_receiver(&mut self) -> (last: bool)
        requires
            old(self)@.receivers > 0,
        ensures
            last == (old(self)@.receivers == 1),
            final(self)@ == old(self)@.receiver_closed(),
    {
        let prev: usize = self.receiver_count;
        self.receiver_count = prev - 1;
        if prev == 1 {
            drain_select_waiters(&mut self.select_waiters);
        }
        prev == 1
    }
}

// ── Laws ─────────────────────────────────────────────────────────────────────
/// Handles coming and going change the count of their side by one and nothing else, except that the
/// last handle of either side takes the recv arms of waiting selects along; and only the last
/// sender wakes anybody: every blocked receive, and then every recv arm that was not aborted.
pub proof fn law_handles_are_counted(p: PortsView, b: BoardView)
    ensures
        PortsView::fresh().recv_waiters.len() == 0,
        PortsView::fresh().select_waiters.len() == 0,
        PortsView::fresh().senders == 1,
        PortsView::fresh().receivers == 1,
        p.sender_added() == (PortsView {
            recv_waiters: p.recv_waiters,
            select_waiters: p.select_waiters,
            senders: p.senders + 1,
            receivers: p.receivers,
        }),
        p.receiver_added() == (PortsView {
            recv_waiters: p.recv_waiters,
            select_waiters: p.select_waiters,
            senders: p.senders,
            receivers: p.receivers + 1,
        }),
        p.senders > 0 ==> p.sender_closed().senders + 1 == p.senders,
        p.sender_closed().receivers == p.receivers,
        p.sender_closed().recv_waiters == p.recv_waiters,
        p.senders > 1 ==> p.sender_closed().select_waiters == p.select_waiters,
        p.senders == 1 ==> p.sender_closed().select_waiters.len() == 0,
        p.senders > 1 ==> p.sender_closed_wakes(b) == b,
        p.senders == 1 ==> p.sender_closed_wakes(b) == woken_all(
            p.recv_waiters + pending(p.select_waiters),
            b,
        ),
        p.receivers > 0 ==> p.receiver_closed().receivers + 1 == p.receivers,
        p.receiver_closed().senders == p.senders,
        p.receiver_closed().recv_waiters == p.recv_waiters,
        p.receivers > 1 ==> p.receiver_closed().select_waiters == p.select_waiters,
        p.receivers == 1 ==> p.receiver_closed().select_waiters.len() == 0,
{
    lemma_woken_all_in_two_parts(p.recv_waiters, pending(p.select_waiters), b);
}

/// A wait puts a blocked receive at the end of the list, its release takes exactly the waiters of
/// its cell off, and a wake-up of the recv arms empties their stack; nothing else changes.
pub proof fn law_waits_change_only_their_list(p: PortsView, waiter: RecvWaiter, cell: u64)
    ensures
        p.waiting(waiter) == (PortsView {
            recv_waiters: p.recv_waiters.push(waiter),
            select_waiters: p.select_waiters,
            senders: p.senders,
            receivers: p.receivers,
        }),
        p.released(cell) == (PortsView {
            recv_waiters: p.recv_waiters.filter(|w: RecvWaiter| w.selected != cell),
            select_waiters: p.select_waiters,
            senders: p.senders,
            receivers: p.receivers,
        }),
        p.select_drained() == (PortsView {
            recv_waiters: p.recv_waiters,
            select_waiters: Seq::empty(),
            senders: p.senders,
            receivers: p.receivers,
        }),
{
    law_without_is_a_filter(p.recv_waiters, cell);
}

/// Waking one list after another is waking both in a row.
pub(crate) proof fn lemma_woken_all_in_two_parts(
    first: Seq<RecvWaiter>,
    second: Seq<RecvWaiter>,
    b: BoardView,
)
    ensures
        woken_all(second, woken_all(first, b)) == woken_all(first + second, b),
    decreases first.len(),
{
    if first.len() == 0 {
        assert(first + second =~= second);
    } else {
        assert((first + second).drop_first() =~= first.drop_first() + second);
        lemma_woken_all_in_two_parts(
            first.drop_first(),
            second,
            b.claim(first[0].selected, first[0].case_id).unpark(first[0].thread),
        );
    }
}

} // verus!
