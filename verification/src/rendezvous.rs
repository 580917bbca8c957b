//! Rendezvous channel: synchronous handoff without a buffer.
//!
//! A send parks its thread, with the value, until a receiver takes the value; a receive waits until
//! a sender has parked. When several senders are parked, the one that parked last is served first.
//! This is not the same as a bounded channel of capacity 0, whose sends all fail.
use vstd::prelude::*;

use core::marker::PhantomData;

use crate::error::{RecvError, SendError, TryRecvError};
use crate::ports::{Port, Ports, PortsView, Step};
use crate::selectable::{ArmOpTrait, Channels, SelectableReceiver, SelectableSender};
use crate::store::Store;
use crate::waiter::{
    abort_select_waiters, law_wake_all_unparks_everyone, law_wake_one_wakes_the_first_claimable,
    law_wakeups_touch_only_waited_cells, law_without_is_a_filter, pending, push_select_waiter,
    register_plain_recv_waiter, threads_of, wake_all_recv_waiters, wake_select_all, wake_select_one,
    woken_all, woken_one, Board, BoardView, RecvWaiter, RecvWaiterGuard, SelectStack, SelectWaiter,
    UNSELECTED,
};

verus! {

// ── Model ────────────────────────────────────────────────────────────────────
/// A sender parked with its value.
#[verifier::ext_equal]
pub struct Parked<T> {
    /// Names the send.
    pub ticket: u64,
    pub value: T,
    /// The token of the parked thread.
    pub thread: u64,
}

/// The contents of a rendezvous channel.
#[verifier::ext_equal]
pub struct RendezvousView<T> {
    /// The parked senders whose value was not taken yet, the one that parked last at the end.
    pub parked: Seq<Parked<T>>,
    /// The sends whose value was taken but whose sender has not noticed yet.
    pub taken: Set<u64>,
    /// Recv-side waiters and handle counts.
    pub ports: PortsView,
    /// Send arms of waiting selects.
    pub send_select_waiters: Seq<SelectWaiter>,
}

/// The board after every parked sender was unparked, the one that parked last first.
pub open spec fn unparked_senders<T>(parked: Seq<Parked<T>>, b: BoardView) -> BoardView
    decreases parked.len(),
{
    if parked.len() == 0 {
        b
    } else {
        unparked_senders(parked.drop_last(), b.unpark(parked.last().thread))
    }
}

impl<T> RendezvousView<T> {
    pub open spec fn fresh() -> Self {
        RendezvousView {
            parked: Seq::empty(),
            taken: Set::empty(),
            ports: PortsView::fresh(),
            send_select_waiters: Seq::empty(),
        }
    }

    /// The send is parked at this place.
    pub open spec fn parked_at(self, ticket: u64, i: int) -> bool {
        0 <= i < self.parked.len() && self.parked[i].ticket == ticket
    }

    /// The send is parked.
    pub open spec fn is_parked(self, ticket: u64) -> bool {
        exists|i: int| self.parked_at(ticket, i)
    }

    /// Where the send is parked.
    pub open spec fn place(self, ticket: u64) -> int {
        choose|i: int| self.parked_at(ticket, i)
    }

    // ── Sending ──────────────────────────────────────────────────────────
    /// After a sender parked: the recv arms of waiting selects are taken off to be woken.
    pub open spec fn with_parked(self, p: Parked<T>) -> Self {
        RendezvousView {
            parked: self.parked.push(p),
            ports: self.ports.select_drained(),
            ..self
        }
    }

    /// Whom a sender that parks wakes: every blocked receive, and one recv arm.
    pub open spec fn parked_wakes(self, b: BoardView) -> BoardView {
        woken_one(pending(self.ports.select_waiters), woken_all(self.ports.recv_waiters, b))
    }

    /// What the first step of a send may lead to: an error if nobody is left to receive; else the
    /// sender parks with its value under a ticket that no other send has.
    pub open spec fn send_step(
        self,
        b: BoardView,
        value: T,
        thread: u64,
        r: Step<Result<(), SendError<T>>, ParkedSend>,
        after: Self,
        b_after: BoardView,
    ) -> bool {
        if self.ports.receivers == 0 {
            &&& r == Step::<Result<(), SendError<T>>, ParkedSend>::Done(Err(SendError(value)))
            &&& after == self
            &&& b_after == b
        } else {
            &&& r matches Step::Wait(send)
            &&& !self.is_parked(send.ticket())
            &&& !self.taken.contains(send.ticket())
            &&& after == self.with_parked(Parked { ticket: send.ticket(), value, thread })
            &&& b_after == self.parked_wakes(b)
        }
    }

    /// After the sender of a taken value noticed.
    pub open spec fn noticed(self, ticket: u64) -> Self {
        RendezvousView { taken: self.taken.remove(ticket), ..self }
    }

    /// After a parked sender withdrew.
    pub open spec fn withdrawn(self, ticket: u64) -> Self {
        RendezvousView { parked: self.parked.remove(self.place(ticket)), ..self }
    }

    // ── Receiving ────────────────────────────────────────────────────────
    /// What a receive gives right now; `None` if it has to wait.
    pub open spec fn offer(self) -> Option<Result<T, RecvError>> {
        if self.parked.len() > 0 {
            Some(Ok(self.parked.last().value))
        } else if self.ports.senders == 0 {
            Some(Err(RecvError::Disconnected))
        } else {
            None
        }
    }

    /// After a receive that does not wait: the value of the sender that parked last is taken.
    pub open spec fn received(self) -> Self {
        if self.parked.len() > 0 {
            RendezvousView {
                parked: self.parked.drop_last(),
                taken: self.taken.insert(self.parked.last().ticket),
                ..self
            }
        } else {
            self
        }
    }

    /// Whom a receive that does not wait wakes: the sender whose value it took.
    pub open spec fn received_wakes(self, b: BoardView) -> BoardView {
        if self.parked.len() > 0 {
            b.unpark(self.parked.last().thread)
        } else {
            b
        }
    }

    /// What a non-blocking receive returns.
    pub open spec fn try_recv_result(self) -> Result<T, TryRecvError> {
        match self.offer() {
            Some(Ok(msg)) => Ok(msg),
            Some(Err(_)) => Err(TryRecvError::Disconnected),
            None => Err(TryRecvError::Empty),
        }
    }

    /// With one more thread blocked in a receive: the send arms of waiting selects are taken off to
    /// be woken.
    pub open spec fn waiting(self, waiter: RecvWaiter) -> Self {
        RendezvousView {
            ports: self.ports.waiting(waiter),
            send_select_waiters: Seq::empty(),
            ..self
        }
    }

    /// Without the blocked receive of the given cell.
    pub open spec fn released(self, cell: u64) -> Self {
        RendezvousView { ports: self.ports.released(cell), ..self }
    }

    /// What the first step of a blocking receive may lead to: the offer, if there is one; else a
    /// wait on a fresh cell, of which one send arm is told.
    pub open spec fn recv_step(
        self,
        b: BoardView,
        thread: u64,
        r: Step<Result<T, RecvError>, RecvWaiterGuard>,
        after: Self,
        b_after: BoardView,
    ) -> bool {
        match self.offer() {
            Some(out) => {
                &&& r == Step::<Result<T, RecvError>, RecvWaiterGuard>::Done(out)
                &&& after == self.received()
                &&& b_after == self.received_wakes(b)
            },
            None => {
                &&& r matches Step::Wait(guard)
                &&& !b.cells.contains_key(guard.cell())
                &&& after == self.waiting(
                    RecvWaiter { case_id: UNSELECTED, selected: guard.cell(), thread },
                )
                &&& b_after == woken_one(
                    pending(self.send_select_waiters),
                    b.opened(guard.cell()),
                )
            },
        }
    }

    /// What the second look of a registered receive leads to: the offer, if there is one by now,
    /// with the registration undone; else the thread is to park.
    pub open spec fn recheck_step(
        self,
        b: BoardView,
        guard: RecvWaiterGuard,
        r: Step<Result<T, RecvError>, RecvWaiterGuard>,
        after: Self,
        b_after: BoardView,
    ) -> bool {
        match self.offer() {
            Some(out) => {
                &&& r == Step::<Result<T, RecvError>, RecvWaiterGuard>::Done(out)
                &&& after == self.received().released(guard.cell())
                &&& b_after == self.received_wakes(b).closed(guard.cell())
            },
            None => {
                &&& r == Step::<Result<T, RecvError>, RecvWaiterGuard>::Wait(guard)
                &&& after == self
                &&& b_after == b
            },
        }
    }

    /// How a send that was begun has ended, if it has: its value was taken, or the receivers are
    /// gone and it gets its value back.
    pub open spec fn send_end(self, ticket: u64) -> Option<Result<(), SendError<T>>> {
        if self.taken.contains(ticket) {
            Some(Ok(()))
        } else if self.ports.receivers == 0 {
            Some(Err(SendError(self.parked[self.place(ticket)].value)))
        } else {
            None
        }
    }

    /// After the sender looked whether its send has ended.
    pub open spec fn send_looked(self, ticket: u64) -> Self {
        if self.taken.contains(ticket) {
            self.noticed(ticket)
        } else if self.ports.receivers == 0 {
            self.withdrawn(ticket)
        } else {
            self
        }
    }

    // ── Handles ──────────────────────────────────────────────────────────
    pub open spec fn sender_added(self) -> Self {
        RendezvousView { ports: self.ports.sender_added(), ..self }
    }

    pub open spec fn sender_closed(self) -> Self {
        RendezvousView { ports: self.ports.sender_closed(), ..self }
    }

    pub open spec fn receiver_added(self) -> Self {
        RendezvousView { ports: self.ports.receiver_added(), ..self }
    }

    /// After a receiver handle went away; the last one takes all select waiters along.
    pub open spec fn receiver_closed(self) -> Self {
        RendezvousView {
            ports: self.ports.receiver_closed(),
            send_select_waiters: if self.ports.receivers == 1 {
                Seq::empty()
            } else {
                self.send_select_waiters
            },
            ..self
        }
    }

    /// Whom the going away of a receiver handle wakes: with the last one, every parked sender and
    /// every send arm.
    pub open spec fn receiver_closed_wakes(self, b: BoardView) -> BoardView {
        if self.ports.receivers == 1 {
            woken_all(pending(self.send_select_waiters), unparked_senders(self.parked, b))
        } else {
            b
        }
    }

    // ── Select ───────────────────────────────────────────────────────────
    /// The select waiters on one side.
    pub open spec fn stack(self, port: Port) -> Seq<SelectWaiter> {
        match port {
            Port::Recv => self.ports.select_waiters,
            Port::Send => self.send_select_waiters,
        }
    }

    /// With other select waiters on one side.
    pub open spec fn with_stack(self, port: Port, waiters: Seq<SelectWaiter>) -> Self {
        match port {
            Port::Recv => RendezvousView {
                ports: PortsView { select_waiters: waiters, ..self.ports },
                ..self
            },
            Port::Send => RendezvousView { send_select_waiters: waiters, ..self },
        }
    }
}

// ── Channel ──────────────────────────────────────────────────────────────────
/// A sender that parked, with its value until that is taken.
struct SenderWaiter<T> {
    value: Option<T>,
    thread: u64,
}

impl<T> SenderWaiter<T> {
    fn new(value: T, thread: u64) -> (r: Self)
        ensures
            r.value == Some(value),
            r.thread == thread,
    {
        SenderWaiter { value: Some(value), thread }
    }
}

/// A send that is parked; goes into [`Sender::recheck`].
pub struct ParkedSend {
    ticket: u64,
}

impl ParkedSend {
    /// Names the send.
    pub closed spec fn ticket(&self) -> u64 {
        self.ticket
    }
}

/// The state that all handles of a channel share.
pub struct Chan<T> {
    /// The sends that are parked, and those that were taken and not noticed yet.
    sends: Store<SenderWaiter<T>>,
    /// The tickets of the parked sends; the last one parked at the end.
    sender_waiters: Vec<u64>,
    ports: Ports,
    /// Send arms of waiting selects; woken when a receiver waits or the last receiver goes.
    send_select_waiters: SelectStack,
}

impl<T> View for Chan<T> {
    type V = RendezvousView<T>;

    closed spec fn view(&self) -> RendezvousView<T> {
        RendezvousView {
            parked: Seq::new(
                self.sender_waiters@.len(),
                |i: int|
                    Parked {
                        ticket: self.sender_waiters@[i],
                        value: self.sends@[self.sender_waiters@[i]].value.unwrap(),
                        thread: self.sends@[self.sender_waiters@[i]].thread,
                    },
            ),
            taken: Set::new(
                |t: u64| self.sends@.contains_key(t) && self.sends@[t].value is None,
            ),
            ports: self.ports@,
            send_select_waiters: self.send_select_waiters@,
        }
    }
}

impl<T> Chan<T> {
    /// The parked sends are those that still have their value, each parked once.
    pub closed spec fn wf(&self) -> bool {
        &&& self.sends.wf()
        &&& self.sender_waiters@.no_duplicates()
        &&& forall|i: int|
            0 <= i < self.sender_waiters@.len() ==> self.sends@.contains_key(
                #[trigger] self.sender_waiters@[i],
            ) && self.sends@[self.sender_waiters@[i]].value is Some
        &&& forall|t: u64| #[trigger]
            self.sends@.contains_key(t) && self.sends@[t].value is Some
                ==> self.sender_waiters@.contains(t)
    }

    /// No send is parked twice, and none is both parked and taken.
    pub proof fn law_sends_are_distinct(&self)
        requires
            self.wf(),
        ensures
            forall|i: int, j: int|
                0 <= i < j < self@.parked.len() ==> (#[trigger] self@.parked[i]).ticket != (
                #[trigger] self@.parked[j]).ticket,
            forall|t: u64| self@.is_parked(t) ==> !#[trigger] self@.taken.contains(t),
    {
    }

    /// Takes the value of the sender that parked last and unparks it, if there is one.
    fn pop_sender(&mut self, board: &mut Board) -> (r: Option<T>)
        requires
            old(self).wf(),
            old(board).wf(),
        ensures
            final(self).wf(),
            final(board).wf(),
            r == (if old(self)@.parked.len() > 0 {
                Some(old(self)@.parked.last().value)
            } else {
                None
            }),
            final(self)@ == old(self)@.received(),
            final(board)@ == old(self)@.received_wakes(old(board)@),
    {
        let ghost before = *self;
        let ticket: u64 = match self.sender_waiters.pop() {
            Some(ticket) => ticket,
            None => {
                return None;
            },
        };
        assert(before.sender_waiters@[before.sender_waiters@.len() - 1] == ticket);
        let thread: u64 = match self.sends.get(ticket) {
            Some(waiter) => waiter.thread,
            None => 0,
        };
        let emptied = SenderWaiter { value: None, thread };
        let value: Option<T> = match self.sends.replace(ticket, emptied) {
            Some(waiter) => waiter.value,
            None => None,
        };
        board.unpark(thread);
        proof {
            assert(self.sends@.dom() =~= before.sends@.dom());
            lemma_only_one_changed(before, *self, ticket);
            assert(self@.parked =~= before@.parked.drop_last());
            assert(self@.taken =~= before@.taken.insert(ticket));
            assert(value == Some(before@.parked.last().value));
        }
        value
    }
}

proof fn lemma_only_one_changed<T>(before: Chan<T>, after: Chan<T>, ticket: u64)
    requires
        before.wf(),
        after.sends.wf(),
        before.sender_waiters@.len() > 0,
        before.sender_waiters@.last() == ticket,
        after.sender_waiters@ == before.sender_waiters@.drop_last(),
        after.sends@.dom() == before.sends@.dom(),
        after.sends@[ticket].value is None,
        forall|t: u64| t != ticket ==> after.sends@[t] == before.sends@[t],
    ensures
        after.wf(),
        forall|i: int|
            0 <= i < after.sender_waiters@.len() ==> (#[trigger] after.sender_waiters@[i])
                != ticket,
{
    let n = before.sender_waiters@.len();
    assert(before.sender_waiters@[n - 1] == ticket);
    assert forall|i: int| 0 <= i < after.sender_waiters@.len() implies (
    #[trigger] after.sender_waiters@[i]) != ticket by {
        assert(after.sender_waiters@[i] == before.sender_waiters@[i]);
    }
    assert forall|t: u64| #[trigger]
        after.sends@.contains_key(t)
            && after.sends@[t].value is Some implies after.sender_waiters@.contains(t) by {
        assert(before.sends@.contains_key(t));
        let i = choose|i: int| 0 <= i < n && before.sender_waiters@[i] == t;
        assert(after.sender_waiters@[i] == t);
    }
}

/// A sender handle.
pub struct Sender<T> {
    _message: PhantomData<T>,
}

/// A receiver handle.
pub struct Receiver<T> {
    _message: PhantomData<T>,
}

/// Creates a channel, with its first sender and receiver.
pub fn channel<T>() -> (r: (Chan<T>, Sender<T>, Receiver<T>))
    ensures
        r.0.wf(),
        r.0@ == RendezvousView::<T>::fresh(),
{
    let chan = Chan {
        sends: Store::new(),
        sender_waiters: Vec::new(),
        ports: Ports::new(),
        send_select_waiters: SelectStack::new(),
    };
    assert(chan@ =~= RendezvousView::<T>::fresh());
    (chan, Sender { _message: PhantomData }, Receiver { _message: PhantomData })
}

impl<T> Sender<T> {
    /// Another handle on the same channel.
    pub fn clone(&self, chan: &mut Chan<T>) -> (r: Sender<T>)
        requires
            old(chan).wf(),
            old(chan)@.ports.senders < usize::MAX,
        ensures
            final(chan).wf(),
            final(chan)@ == old(chan)@.sender_added(),
    {
        chan.ports.add_sender();
        Sender { _message: PhantomData }
    }

    /// Gives the handle up. With the last sender, everybody who waits to receive is woken.
    pub fn close(self, chan: &mut Chan<T>, board: &mut Board)
        requires
            old(chan).wf(),
            old(board).wf(),
            old(chan)@.ports.senders > 0,
        ensures
            final(chan).wf(),
            final(board).wf(),
            final(chan)@ == old(chan)@.sender_closed(),
            final(board)@ == old(chan)@.ports.sender_closed_wakes(old(board)@),
    {
        chan.ports.close_sender(board);
    }

    /// Begins a send: parks `thread` with the value, unless all receivers are gone.
    ///
    /// After `Wait` comes [`Sender::recheck`].
    pub fn send(&self, chan: &mut Chan<T>, board: &mut Board, thread: u64, value: T) -> (r: Step<
        Result<(), SendError<T>>,
        ParkedSend,
    >)
        requires
            old(chan).wf(),
            old(board).wf(),
        ensures
            final(chan).wf(),
            final(board).wf(),
            old(chan)@.send_step(old(board)@, value, thread, r, final(chan)@, final(board)@),
    {
        if self.is_closed(chan) {
            return Step::Done(Err(SendError(value)));
        }
        let ghost before = *chan;
        let ticket = chan.sends.insert(SenderWaiter::new(value, thread));
        chan.sender_waiters.push(ticket);
        wake_all_recv_waiters(&chan.ports.recv_waiters, board);
        let _ = wake_select_one(&mut chan.ports.select_waiters, board);
        proof {
            let line = before.sender_waiters@;
            assert forall|i: int| 0 <= i < line.len() implies (#[trigger] line[i]) != ticket by {
                assert(before.sends@.contains_key(line[i]));
            }
            assert forall|t: u64| #[trigger]
                chan.sends@.contains_key(t)
                    && chan.sends@[t].value is Some implies chan.sender_waiters@.contains(t) by {
                if t == ticket {
                    assert(chan.sender_waiters@[line.len() as int] == t);
                } else {
                    assert(before.sends@.contains_key(t));
                    let i = choose|i: int| 0 <= i < line.len() && line[i] == t;
                    assert(chan.sender_waiters@[i] == t);
                }
            }
            assert forall|i: int| !before@.parked_at(ticket, i) by {
                if 0 <= i < line.len() {
                    assert(before@.parked[i].ticket == line[i]);
                }
            }
            let p = Parked { ticket, value, thread };
            assert(chan@.parked =~= before@.parked.push(p));
            assert(chan@.taken =~= before@.taken);
            assert(chan@ =~= before@.with_parked(p));
        }
        Step::Wait(ParkedSend { ticket })
    }

    /// Looks whether a parked send is over: a receiver took the value, or all receivers are gone
    /// and the value comes back.
    ///
    /// After `Wait` the thread parks, and once it is unparked this is called again.
    pub fn recheck(&self, chan: &mut Chan<T>, send: ParkedSend) -> (r: Step<
        Result<(), SendError<T>>,
        ParkedSend,
    >)
        requires
            old(chan).wf(),
            old(chan)@.is_parked(send.ticket()) || old(chan)@.taken.contains(send.ticket()),
        ensures
            final(chan).wf(),
            r == (if old(chan)@.taken.contains(send.ticket()) {
                Step::<Result<(), SendError<T>>, ParkedSend>::Done(Ok(()))
            } else if old(chan)@.ports.receivers == 0 {
                Step::Done(
                    Err(SendError(old(chan)@.parked[old(chan)@.place(send.ticket())].value)),
                )
            } else {
                Step::Wait(send)
            }),
            final(chan)@ == (if old(chan)@.taken.contains(send.ticket()) {
                old(chan)@.noticed(send.ticket())
            } else if old(chan)@.ports.receivers == 0 {
                old(chan)@.withdrawn(send.ticket())
            } else {
                old(chan)@
            }),
            r == (match old(chan)@.send_end(send.ticket()) {
                Some(end) => Step::Done(end),
                None => Step::Wait(send),
            }),
            final(chan)@ == old(chan)@.send_looked(send.ticket()),
    {
        let ghost before = *chan;
        let ghost ticket = send.ticket;
        proof {
            before.law_sends_are_distinct();
            if before@.is_parked(ticket) {
                assert(before@.parked_at(ticket, before@.place(ticket)));
            }
        }
        let taken: bool = match chan.sends.get(send.ticket) {
            Some(waiter) => waiter.value.is_none(),
            None => true,
        };
        if taken {
            let _ = chan.sends.take(send.ticket);
            proof {
                let line = before.sender_waiters@;
                assert forall|i: int| 0 <= i < line.len() implies (#[trigger] line[i])
                    != ticket by {
                    assert(before.sends@[line[i]].value is Some);
                }
                assert(chan@.parked =~= before@.parked);
                assert(chan@.taken =~= before@.taken.remove(ticket));
            }
            return Step::Done(Ok(()));
        }
        if chan.ports.receiver_count == 0 {
            self.remove_sender_waiter(chan, send.ticket);
            let waiter = chan.sends.take(send.ticket);
            proof {
                let i = before@.place(ticket);
                let line = before.sender_waiters@;
                assert forall|j: int| 0 <= j < chan.sender_waiters@.len() implies (
                #[trigger] chan.sender_waiters@[j]) != ticket by {
                    assert(line[i] == ticket);
                    if j < i {
                        assert(chan.sender_waiters@[j] == line[j]);
                    } else {
                        assert(chan.sender_waiters@[j] == line[j + 1]);
                    }
                }
                assert forall|t: u64| #[trigger]
                    chan.sends@.contains_key(t)
                        && chan.sends@[t].value is Some implies chan.sender_waiters@.contains(
                    t,
                ) by {
                    assert(before.sends@.contains_key(t));
                    let j = choose|j: int| 0 <= j < line.len() && line[j] == t;
                    if j < i {
                        assert(chan.sender_waiters@[j] == t);
                    } else {
                        assert(chan.sender_waiters@[j - 1] == t);
                    }
                }
                assert(chan@.parked =~= before@.parked.remove(i));
                assert(chan@.taken =~= before@.taken);
            }
            if let Some(SenderWaiter { value: Some(value), thread: _ }) = waiter {
                return Step::Done(Err(SendError(value)));
            }
            assert(false);
        }
        Step::Wait(send)
    }

    /// Takes a send off the line, if it is parked: the others keep their order. Nothing happens if
    /// it is not.
    fn remove_sender_waiter(&self, chan: &mut Chan<T>, ticket: u64)
        requires
            old(chan).wf(),
        ensures
            final(chan)@ == (if old(chan)@.is_parked(ticket) {
                old(chan)@.withdrawn(ticket)
            } else {
                old(chan)@
            }),
            final(chan).sender_waiters@ == (if old(chan)@.is_parked(ticket) {
                old(chan).sender_waiters@.remove(old(chan)@.place(ticket))
            } else {
                old(chan).sender_waiters@
            }),
            final(chan).sends == old(chan).sends,
            final(chan).ports == old(chan).ports,
            final(chan).send_select_waiters == old(chan).send_select_waiters,
    {
        let mut i: usize = 0;
        while i < chan.sender_waiters.len()
            invariant
                *chan == *old(chan),
                chan.wf(),
                i <= chan.sender_waiters@.len(),
                forall|j: int| 0 <= j < i ==> chan.sender_waiters@[j] != ticket,
            decreases chan.sender_waiters@.len() - i,
        {
            if chan.sender_waiters[i] == ticket {
                assert(chan@.parked_at(ticket, i as int));
                assert(chan@.parked_at(ticket, chan@.place(ticket)));
                assert(chan@.place(ticket) == i) by {
                    assert(chan.sender_waiters@[chan@.place(ticket)] == ticket);
                }
                let _ = chan.sender_waiters.remove(i);
                assert(chan@.parked =~= old(chan)@.parked.remove(i as int));
                assert(chan@ =~= old(chan)@.withdrawn(ticket));
                return ;
            }
            i = i + 1;
        }
        assert forall|j: int| !chan@.parked_at(ticket, j) by {
            if 0 <= j < chan@.parked.len() {
                assert(chan@.parked[j].ticket == chan.sender_waiters@[j]);
            }
        }
    }

    /// Whether all receivers are gone.
    pub fn is_closed(&self, chan: &Chan<T>) -> (r: bool)
        ensures
            r == (chan@.ports.receivers == 0),
    {
        chan.ports.receiver_count == 0
    }
}

impl<T> Receiver<T> {
    /// Another handle on the same channel.
    pub fn clone(&self, chan: &mut Chan<T>) -> (r: Receiver<T>)
        requires
            old(chan).wf(),
            old(chan)@.ports.receivers < usize::MAX,
        ensures
            final(chan).wf(),
            final(chan)@ == old(chan)@.receiver_added(),
    {
        chan.ports.add_receiver();
        Receiver { _message: PhantomData }
    }

    /// Gives the handle up. With the last receiver, every parked sender and every waiting send arm
    /// is woken.
    pub fn close(self, chan: &mut Chan<T>, board: &mut Board)
        requires
            old(chan).wf(),
            old(board).wf(),
            old(chan)@.ports.receivers > 0,
        ensures
            final(chan).wf(),
            final(board).wf(),
            final(chan)@ == old(chan)@.receiver_closed(),
            final(board)@ == old(chan)@.receiver_closed_wakes(old(board)@),
    {
        if chan.ports.close_receiver() {
            let ghost b = board@;
            let ghost parked = chan@.parked;
            let mut i: usize = chan.sender_waiters.len();
            assert(parked.take(i as int) =~= parked);
            while i > 0
                invariant
                    chan.wf(),
                    board.wf(),
                    parked == chan@.parked,
                    i <= chan.sender_waiters@.len() == parked.len(),
                    unparked_senders(parked, b) == unparked_senders(parked.take(i as int), board@),
                decreases i,
            {
                i = i - 1;
                let ticket: u64 = chan.sender_waiters[i];
                assert(chan.sends@.contains_key(ticket));
                if let Some(waiter) = chan.sends.get(ticket) {
                    board.unpark(waiter.thread);
                }
                assert(parked.take(i + 1).last() == parked[i as int]);
                assert(parked.take(i + 1).drop_last() =~= parked.take(i as int));
            }
            wake_select_all(&mut chan.send_select_waiters, board);
        }
    }

    /// Receives without waiting: takes the value of a parked sender, if there is one.
    pub fn try_recv(&self, chan: &mut Chan<T>, board: &mut Board) -> (r: Result<T, TryRecvError>)
        requires
            old(chan).wf(),
            old(board).wf(),
        ensures
            final(chan).wf(),
            final(board).wf(),
            r == old(chan)@.try_recv_result(),
            final(chan)@ == old(chan)@.received(),
            final(board)@ == old(chan)@.received_wakes(old(board)@),
    {
        match chan.pop_sender(board) {
            Some(msg) => Ok(msg),
            None => if chan.ports.sender_count == 0 {
                Err(TryRecvError::Disconnected)
            } else {
                Err(TryRecvError::Empty)
            },
        }
    }

    /// Begins a blocking receive: takes the value of a parked sender, or registers `thread` as a
    /// waiter and tells a waiting send arm so.
    ///
    /// After `Wait` comes [`Receiver::recheck`].
    pub fn recv(&self, chan: &mut Chan<T>, board: &mut Board, thread: u64) -> (r: Step<
        Result<T, RecvError>,
        RecvWaiterGuard,
    >)
        requires
            old(chan).wf(),
            old(board).wf(),
        ensures
            final(chan).wf(),
            final(board).wf(),
            old(chan)@.recv_step(old(board)@, thread, r, final(chan)@, final(board)@),
    {
        match self.try_recv(chan, board) {
            Ok(msg) => Step::Done(Ok(msg)),
            Err(TryRecvError::Empty) => {
                let guard = register_plain_recv_waiter(
                    &mut chan.ports.recv_waiters,
                    board,
                    thread,
                );
                let _ = wake_select_one(&mut chan.send_select_waiters, board);
                Step::Wait(guard)
            },
            Err(_) => Step::Done(Err(RecvError::Disconnected)),
        }
    }

    /// Looks again after registration, so that what happened in between is not missed.
    ///
    /// After `Wait` the thread parks, and once it is unparked comes [`Receiver::resume`].
    pub fn recheck(&self, chan: &mut Chan<T>, board: &mut Board, guard: RecvWaiterGuard) -> (r:
        Step<Result<T, RecvError>, RecvWaiterGuard>)
        requires
            old(chan).wf(),
            old(board).wf(),
        ensures
            final(chan).wf(),
            final(board).wf(),
            old(chan)@.recheck_step(old(board)@, guard, r, final(chan)@, final(board)@),
    {
        match chan.pop_sender(board) {
            Some(msg) => {
                guard.release(&mut chan.ports.recv_waiters, board);
                Step::Done(Ok(msg))
            },
            None => if chan.ports.sender_count == 0 {
                guard.release(&mut chan.ports.recv_waiters, board);
                Step::Done(Err(RecvError::Disconnected))
            } else {
                Step::Wait(guard)
            },
        }
    }

    /// Goes on after the thread was unparked: undoes the registration and begins anew.
    pub fn resume(
        &self,
        chan: &mut Chan<T>,
        board: &mut Board,
        thread: u64,
        guard: RecvWaiterGuard,
    ) -> (r: Step<Result<T, RecvError>, RecvWaiterGuard>)
        requires
            old(chan).wf(),
            old(board).wf(),
        ensures
            final(chan).wf(),
            final(board).wf(),
            old(chan)@.released(guard.cell()).recv_step(
                old(board)@.closed(guard.cell()),
                thread,
                r,
                final(chan)@,
                final(board)@,
            ),
    {
        guard.release(&mut chan.ports.recv_waiters, board);
        self.recv(chan, board, thread)
    }

    /// Receives after this arm of a select was selected.
    pub fn complete_recv(&self, chan: &mut Chan<T>, board: &mut Board, thread: u64) -> (r: Step<
        Result<T, RecvError>,
        RecvWaiterGuard,
    >)
        requires
            old(chan).wf(),
            old(board).wf(),
        ensures
            final(chan).wf(),
            final(board).wf(),
            old(chan)@.recv_step(old(board)@, thread, r, final(chan)@, final(board)@),
    {
        self.recv(chan, board, thread)
    }
}

// ── Select ───────────────────────────────────────────────────────────────────
impl<T> Channels for Chan<T> {
    type State = RendezvousView<T>;

    type Port = Port;

    open spec fn state(&self) -> RendezvousView<T> {
        self@
    }

    open spec fn valid(&self) -> bool {
        self.wf()
    }

    open spec fn has_port(s: RendezvousView<T>, port: Port) -> bool {
        true
    }

    open spec fn stack(s: RendezvousView<T>, port: Port) -> Seq<SelectWaiter> {
        s.stack(port)
    }

    open spec fn with_stack(
        s: RendezvousView<T>,
        port: Port,
        waiters: Seq<SelectWaiter>,
    ) -> RendezvousView<T> {
        s.with_stack(port, waiters)
    }

    proof fn stacks_are_independent(
        s: RendezvousView<T>,
        port: Port,
        other: Port,
        waiters: Seq<SelectWaiter>,
    ) {
    }
}

impl<T> ArmOpTrait for Receiver<T> {
    type World = Chan<T>;

    open spec fn fits(&self, s: RendezvousView<T>) -> bool {
        true
    }

    /// A sender is parked, or all senders are gone.
    open spec fn ready(&self, s: RendezvousView<T>) -> bool {
        s.offer() is Some
    }

    open spec fn looked(&self, s: RendezvousView<T>) -> Self {
        *self
    }

    open spec fn enrolled(&self, s: RendezvousView<T>) -> Self {
        *self
    }

    open spec fn enlists(&self, s: RendezvousView<T>) -> bool {
        true
    }

    open spec fn port(&self) -> Port {
        Port::Recv
    }

    proof fn readiness_is_stable(
        &self,
        s: RendezvousView<T>,
        port: Port,
        waiters: Seq<SelectWaiter>,
    ) {
    }

    fn is_ready(&mut self, world: &Chan<T>) -> (r: bool) {
        world.sender_waiters.len() > 0 || world.ports.sender_count == 0
    }

    fn register_select(&mut self, world: &mut Chan<T>, case_id: usize, selected: u64, thread: u64) {
        push_select_waiter(
            SelectWaiter::new(case_id, selected, thread),
            &mut world.ports.select_waiters,
        );
    }

    fn abort_select(&self, world: &mut Chan<T>, selected: u64) {
        abort_select_waiters(&mut world.ports.select_waiters, selected);
    }
}

impl<T> SelectableReceiver for Receiver<T> {
    type Output = T;

    type Pending = RecvWaiterGuard;

    open spec fn completes(
        before: (Self, RendezvousView<T>, BoardView),
        thread: u64,
        after: (Self, RendezvousView<T>, BoardView),
        r: Step<Result<T, RecvError>, RecvWaiterGuard>,
    ) -> bool {
        &&& after.0 == before.0
        &&& before.1.recv_step(before.2, thread, r, after.1, after.2)
    }

    proof fn law_ready_arm_completes(
        before: (Self, RendezvousView<T>, BoardView),
        thread: u64,
        after: (Self, RendezvousView<T>, BoardView),
        r: Step<Result<T, RecvError>, RecvWaiterGuard>,
    ) {
    }

    proof fn law_idle_arm_waits(
        before: (Self, RendezvousView<T>, BoardView),
        thread: u64,
        after: (Self, RendezvousView<T>, BoardView),
        r: Step<Result<T, RecvError>, RecvWaiterGuard>,
    ) {
    }

    fn complete(&mut self, world: &mut Chan<T>, board: &mut Board, thread: u64) -> (r: Step<
        Result<T, RecvError>,
        RecvWaiterGuard,
    >) {
        self.complete_recv(world, board, thread)
    }
}

impl<T> ArmOpTrait for Sender<T> {
    type World = Chan<T>;

    open spec fn fits(&self, s: RendezvousView<T>) -> bool {
        true
    }

    /// A receive is blocked, or all receivers are gone.
    open spec fn ready(&self, s: RendezvousView<T>) -> bool {
        s.ports.recv_waiters.len() > 0 || s.ports.receivers == 0
    }

    open spec fn looked(&self, s: RendezvousView<T>) -> Self {
        *self
    }

    open spec fn enrolled(&self, s: RendezvousView<T>) -> Self {
        *self
    }

    open spec fn enlists(&self, s: RendezvousView<T>) -> bool {
        true
    }

    open spec fn port(&self) -> Port {
        Port::Send
    }

    proof fn readiness_is_stable(
        &self,
        s: RendezvousView<T>,
        port: Port,
        waiters: Seq<SelectWaiter>,
    ) {
    }

    fn is_ready(&mut self, world: &Chan<T>) -> (r: bool) {
        !world.ports.recv_waiters.is_empty() || world.ports.receiver_count == 0
    }

    fn register_select(&mut self, world: &mut Chan<T>, case_id: usize, selected: u64, thread: u64) {
        push_select_waiter(
            SelectWaiter::new(case_id, selected, thread),
            &mut world.send_select_waiters,
        );
    }

    fn abort_select(&self, world: &mut Chan<T>, selected: u64) {
        abort_select_waiters(&mut world.send_select_waiters, selected);
    }
}

impl<T: Send> SelectableSender for Sender<T> {
    type Input = T;

    type Pending = ParkedSend;

    open spec fn sends(
        &self,
        before: (RendezvousView<T>, BoardView),
        value: T,
        thread: u64,
        after: (RendezvousView<T>, BoardView),
        r: Step<Result<(), SendError<T>>, ParkedSend>,
    ) -> bool {
        before.0.send_step(before.1, value, thread, r, after.0, after.1)
    }

    proof fn law_send_arm_is_honest(
        &self,
        before: (RendezvousView<T>, BoardView),
        value: T,
        thread: u64,
        after: (RendezvousView<T>, BoardView),
        r: Step<Result<(), SendError<T>>, ParkedSend>,
    ) {
    }

    /// The receiver that made the arm ready may be gone by now; then this waits for the next one.
    fn complete_send(&self, world: &mut Chan<T>, board: &mut Board, thread: u64, value: T) -> (r:
        Step<Result<(), SendError<T>>, ParkedSend>) {
        self.send(world, board, thread, value)
    }
}

// ── Laws ─────────────────────────────────────────────────────────────────────
/// There is no buffer: a send never succeeds in its first step. It succeeds only after a receiver
/// took the value.
pub proof fn law_send_waits_for_a_receiver<T>(
    s: RendezvousView<T>,
    b: BoardView,
    value: T,
    thread: u64,
    r: Step<Result<(), SendError<T>>, ParkedSend>,
    after: RendezvousView<T>,
    b_after: BoardView,
)
    requires
        s.send_step(b, value, thread, r, after, b_after),
    ensures
        !(r matches Step::Done(Ok(_))),
        r matches Step::Wait(send) ==> after.is_parked(send.ticket()) && !after.taken.contains(
            send.ticket(),
        ) && after.offer() == Some(Ok::<T, RecvError>(value)),
{
    if let Step::Wait(send) = r {
        assert(after.parked_at(send.ticket(), s.parked.len() as int));
    }
}

/// A value is handed over exactly once: the value that a receive returns is that of a send which
/// was parked and now counts as taken, and all other sends stay parked or taken as they were.
pub proof fn law_handoff_is_exactly_once<T>(s: RendezvousView<T>)
    requires
        s.parked.len() > 0,
        forall|i: int, j: int|
            0 <= i < j < s.parked.len() ==> (#[trigger] s.parked[i]).ticket != (
            #[trigger] s.parked[j]).ticket,
    ensures
        s.offer() == Some(Ok::<T, RecvError>(s.parked.last().value)),
        s.received().taken.contains(s.parked.last().ticket),
        !s.received().is_parked(s.parked.last().ticket),
        forall|t: u64|
            t != s.parked.last().ticket ==> #[trigger] s.received().taken.contains(t)
                == s.taken.contains(t),
        forall|i: int|
            0 <= i < s.parked.len() - 1 ==> #[trigger] s.received().parked[i] == s.parked[i],
{
    assert forall|i: int| !s.received().parked_at(s.parked.last().ticket, i) by {
        if 0 <= i < s.parked.len() - 1 {
            assert(s.received().parked[i] == s.parked[i]);
            assert(s.parked[i].ticket != s.parked[s.parked.len() - 1].ticket);
        }
    }
}

/// A value stays with its send while other things happen: further sends, blocked receives, handles
/// coming and going, and select arms waiting leave every parked send and its value alone.
pub proof fn law_parked_value_is_kept<T>(
    s: RendezvousView<T>,
    i: int,
    p: Parked<T>,
    waiter: RecvWaiter,
    cell: u64,
    port: Port,
    waiters: Seq<SelectWaiter>,
)
    requires
        0 <= i < s.parked.len(),
    ensures
        s.with_parked(p).parked[i] == s.parked[i],
        s.waiting(waiter).parked == s.parked,
        s.released(cell).parked == s.parked,
        s.sender_added().parked == s.parked,
        s.sender_closed().parked == s.parked,
        s.receiver_added().parked == s.parked,
        s.receiver_closed().parked == s.parked,
        s.with_stack(port, waiters).parked == s.parked,
{
}

/// When the last receiver goes, every parked sender and every waiting send arm is unparked, so that
/// each can take its value back.
pub proof fn law_last_receiver_wakes_all_senders<T>(s: RendezvousView<T>, b: BoardView)
    requires
        s.ports.receivers == 1,
    ensures
        s.receiver_closed_wakes(b).unparked == b.unparked + s.parked.map_values(
            |p: Parked<T>| p.thread,
        ).reverse() + threads_of(pending(s.send_select_waiters)),
        s.receiver_closed().ports.receivers == 0,
{
    lemma_unparked_senders(s.parked, b);
    law_wake_all_unparks_everyone(
        pending(s.send_select_waiters),
        unparked_senders(s.parked, b),
    );
}

proof fn lemma_unparked_senders<T>(parked: Seq<Parked<T>>, b: BoardView)
    ensures
        unparked_senders(parked, b).unparked == b.unparked + parked.map_values(
            |p: Parked<T>| p.thread,
        ).reverse(),
    decreases parked.len(),
{
    let threads = parked.map_values(|p: Parked<T>| p.thread);
    if parked.len() == 0 {
        assert(b.unparked + threads.reverse() =~= b.unparked);
    } else {
        let rest = parked.drop_last().map_values(|p: Parked<T>| p.thread);
        lemma_unparked_senders(parked.drop_last(), b.unpark(parked.last().thread));
        assert(b.unparked.push(parked.last().thread) + rest.reverse() =~= b.unparked
            + threads.reverse());
    }
}

/// A receive that blocks makes send arms ready, and wakes one that waits if one can still be
/// selected: the topmost such arm gets its cell claimed and its thread unparked.
pub proof fn law_waiting_receiver_readies_senders<T>(
    s: RendezvousView<T>,
    b: BoardView,
    thread: u64,
    guard: RecvWaiterGuard,
    after: RendezvousView<T>,
    b_after: BoardView,
    tx: Sender<T>,
    i: int,
)
    requires
        s.recv_step(b, thread, Step::Wait(guard), after, b_after),
        0 <= i < pending(s.send_select_waiters).len(),
        b.unselected(pending(s.send_select_waiters)[i].selected),
        forall|j: int|
            0 <= j < i ==> {
                let cell = (#[trigger] pending(s.send_select_waiters)[j]).selected;
                !b.unselected(cell) && cell != guard.cell()
            },
    ensures
        tx.ready(after),
        b_after.unparked == b.unparked.push(pending(s.send_select_waiters)[i].thread),
        b_after.cells[pending(s.send_select_waiters)[i].selected] == pending(
            s.send_select_waiters,
        )[i].case_id,
{
    let arms = pending(s.send_select_waiters);
    let opened = b.opened(guard.cell());
    assert(opened.unselected(arms[i].selected));
    assert forall|j: int| 0 <= j < i implies !opened.unselected((#[trigger] arms[j]).selected) by {
        assert(!b.unselected(arms[j].selected));
    }
    law_wake_one_wakes_the_first_claimable(arms, opened);
}

/// A receive that blocks makes every send arm ready, whether or not one waits.
pub proof fn law_send_arms_are_ready_while_a_receive_blocks<T>(
    s: RendezvousView<T>,
    waiter: RecvWaiter,
    tx: Sender<T>,
)
    ensures
        tx.ready(s.waiting(waiter)),
{
}

// ── What the operations do ───────────────────────────────────────────────────
/// A new channel has nobody parked or waiting, one sender and one receiver.
pub proof fn law_new_channel_is_empty<T>()
    ensures
        RendezvousView::<T>::fresh().parked.len() == 0,
        RendezvousView::<T>::fresh().taken.is_empty(),
        RendezvousView::<T>::fresh().ports.recv_waiters.len() == 0,
        RendezvousView::<T>::fresh().ports.select_waiters.len() == 0,
        RendezvousView::<T>::fresh().ports.senders == 1,
        RendezvousView::<T>::fresh().ports.receivers == 1,
        RendezvousView::<T>::fresh().send_select_waiters.len() == 0,
{
}

/// A send with no receiver left fails at once, hands its value back and changes nothing. Any other
/// parks on top of those parked before it, with its own value and thread under a ticket that no
/// parked or taken send has, unparks every blocked receive and wakes the topmost recv arm that can
/// be claimed; nothing else changes.
pub proof fn law_send_parks_its_value<T>(
    s: RendezvousView<T>,
    b: BoardView,
    value: T,
    thread: u64,
    r: Step<Result<(), SendError<T>>, ParkedSend>,
    after: RendezvousView<T>,
    b_after: BoardView,
)
    requires
        s.send_step(b, value, thread, r, after, b_after),
    ensures
        s.ports.receivers == 0 ==> {
            &&& r == Step::<Result<(), SendError<T>>, ParkedSend>::Done(Err(SendError(value)))
            &&& after == s
            &&& b_after == b
        },
        s.ports.receivers > 0 ==> {
            &&& r is Wait
            &&& forall|i: int|
                0 <= i < s.parked.len() ==> (#[trigger] s.parked[i]).ticket != r->Wait_0.ticket()
            &&& !s.taken.contains(r->Wait_0.ticket())
            &&& after.parked == s.parked.push(
                Parked { ticket: r->Wait_0.ticket(), value, thread },
            )
            &&& after.taken == s.taken
            &&& after.ports.recv_waiters == s.ports.recv_waiters
            &&& after.ports.select_waiters.len() == 0
            &&& after.ports.senders == s.ports.senders
            &&& after.ports.receivers == s.ports.receivers
            &&& after.send_select_waiters == s.send_select_waiters
            &&& b_after == woken_one(
                pending(s.ports.select_waiters),
                woken_all(s.ports.recv_waiters, b),
            )
        },
{
    if s.ports.receivers > 0 {
        assert forall|i: int| 0 <= i < s.parked.len() implies (#[trigger] s.parked[i]).ticket
            != r->Wait_0.ticket() by {
            assert(!s.parked_at(r->Wait_0.ticket(), i));
        }
    }
}

/// The end of a send changes only its own entry: noticing takes the ticket out of those taken, and
/// withdrawing takes one parked send with that ticket off the line, all others keeping their order
/// and values.
pub proof fn law_end_of_a_send_is_its_own<T>(s: RendezvousView<T>, ticket: u64)
    ensures
        s.noticed(ticket).taken == s.taken.remove(ticket),
        s.noticed(ticket).parked == s.parked,
        s.noticed(ticket).ports == s.ports,
        s.noticed(ticket).send_select_waiters == s.send_select_waiters,
        s.is_parked(ticket) <==> exists|i: int|
            0 <= i < s.parked.len() && (#[trigger] s.parked[i]).ticket == ticket,
        s.is_parked(ticket) ==> {
            &&& 0 <= s.place(ticket) < s.parked.len()
            &&& s.parked[s.place(ticket)].ticket == ticket
            &&& s.withdrawn(ticket).parked == s.parked.remove(s.place(ticket))
            &&& s.withdrawn(ticket).taken == s.taken
            &&& s.withdrawn(ticket).ports == s.ports
            &&& s.withdrawn(ticket).send_select_waiters == s.send_select_waiters
        },
{
    if exists|i: int| 0 <= i < s.parked.len() && (#[trigger] s.parked[i]).ticket == ticket {
        let i = choose|i: int|
            0 <= i < s.parked.len() && (#[trigger] s.parked[i]).ticket == ticket;
        assert(s.parked_at(ticket, i));
    }
    if s.is_parked(ticket) {
        assert(s.parked_at(ticket, s.place(ticket)));
    }
}

/// A send succeeds exactly if its value was taken, which the sender then forgets. It fails exactly
/// if it was not taken and no receiver is left; then it gets back the value that was parked under
/// its ticket, and that entry is off the line. Else it waits on and nothing changes.
pub proof fn law_send_ends_taken_or_alone<T>(s: RendezvousView<T>, ticket: u64)
    requires
        s.is_parked(ticket) || s.taken.contains(ticket),
    ensures
        s.taken.contains(ticket) ==> {
            &&& s.send_end(ticket) == Some(Ok::<(), SendError<T>>(()))
            &&& s.send_looked(ticket).taken == s.taken.remove(ticket)
            &&& s.send_looked(ticket).parked == s.parked
        },
        !s.taken.contains(ticket) && s.ports.receivers == 0 ==> exists|i: int|
            {
                &&& 0 <= i < s.parked.len()
                &&& (#[trigger] s.parked[i]).ticket == ticket
                &&& s.send_end(ticket) == Some(
                    Err::<(), SendError<T>>(SendError(s.parked[i].value)),
                )
                &&& s.send_looked(ticket).parked == s.parked.remove(i)
                &&& s.send_looked(ticket).taken == s.taken
            },
        !s.taken.contains(ticket) && s.ports.receivers > 0 ==> s.send_end(ticket) is None
            && s.send_looked(ticket) == s,
        s.send_looked(ticket).ports == s.ports,
        s.send_looked(ticket).send_select_waiters == s.send_select_waiters,
{
    law_end_of_a_send_is_its_own(s, ticket);
    if !s.taken.contains(ticket) {
        assert(s.parked[s.place(ticket)].ticket == ticket);
    }
}

/// A receive that does not wait takes the value of the sender that parked last, marks that send as
/// taken and unparks its thread; with nobody parked it finds the channel disconnected exactly if no
/// sender is left. Nothing else changes, and no other send is touched.
pub proof fn law_receive_takes_the_last_parked<T>(s: RendezvousView<T>, b: BoardView)
    ensures
        s.parked.len() > 0 ==> {
            let last = s.parked[s.parked.len() - 1];
            &&& s.offer() == Some(Ok::<T, RecvError>(last.value))
            &&& s.try_recv_result() == Ok::<T, TryRecvError>(last.value)
            &&& s.received().parked == s.parked.take(s.parked.len() - 1)
            &&& s.received().taken == s.taken.insert(last.ticket)
            &&& s.received_wakes(b).unparked == b.unparked.push(last.thread)
        },
        s.parked.len() == 0 ==> s.received() == s && s.received_wakes(b) == b,
        s.parked.len() == 0 && s.ports.senders == 0 ==> s.offer() == Some(
            Err::<T, RecvError>(RecvError::Disconnected),
        ) && s.try_recv_result() == Err::<T, TryRecvError>(TryRecvError::Disconnected),
        s.parked.len() == 0 && s.ports.senders > 0 ==> s.offer() is None && s.try_recv_result()
            == Err::<T, TryRecvError>(TryRecvError::Empty),
        s.received().ports == s.ports,
        s.received().send_select_waiters == s.send_select_waiters,
        s.received_wakes(b).cells == b.cells,
        s.received_wakes(b).turn == b.turn,
{
    if s.parked.len() > 0 {
        assert(s.parked.drop_last() =~= s.parked.take(s.parked.len() - 1));
    }
}

/// What a blocking receive comes to: the value of the sender that parked last, the disconnection,
/// or a wait; in the first step on a fresh cell, with the thread at the end of the list, and with
/// the topmost send arm that can be claimed told of it; in the second look with nothing changed.
pub proof fn law_blocking_receive_takes_the_last_parked<T>(
    s: RendezvousView<T>,
    b: BoardView,
    thread: u64,
    guard: RecvWaiterGuard,
    r: Step<Result<T, RecvError>, RecvWaiterGuard>,
    after: RendezvousView<T>,
    b_after: BoardView,
)
    ensures
        s.recv_step(b, thread, r, after, b_after) || s.recheck_step(
            b,
            guard,
            r,
            after,
            b_after,
        ) ==> {
            &&& s.parked.len() > 0 ==> {
                &&& r == Step::<Result<T, RecvError>, RecvWaiterGuard>::Done(
                    Ok(s.parked[s.parked.len() - 1].value),
                )
                &&& after.parked == s.parked.take(s.parked.len() - 1)
                &&& after.taken == s.taken.insert(s.parked[s.parked.len() - 1].ticket)
                &&& b_after.unparked == b.unparked.push(s.parked[s.parked.len() - 1].thread)
            }
            &&& s.parked.len() == 0 ==> after.parked == s.parked && after.taken == s.taken
            &&& s.parked.len() == 0 && s.ports.senders == 0 ==> r == Step::<
                Result<T, RecvError>,
                RecvWaiterGuard,
            >::Done(Err(RecvError::Disconnected))
            &&& s.parked.len() == 0 && s.ports.senders > 0 ==> r is Wait
            &&& s.parked.len() == 0 && s.ports.senders == 0 ==> b_after.unparked == b.unparked
            &&& b_after.turn == b.turn
            &&& after.ports.senders == s.ports.senders
            &&& after.ports.receivers == s.ports.receivers
            &&& after.ports.select_waiters == s.ports.select_waiters
        },
        s.recv_step(b, thread, r, after, b_after) && r is Wait ==> {
            &&& !b.cells.contains_key(r->Wait_0.cell())
            &&& after.ports.recv_waiters == s.ports.recv_waiters.push(
                RecvWaiter { case_id: usize::MAX, selected: r->Wait_0.cell(), thread },
            )
            &&& after.send_select_waiters.len() == 0
            &&& b_after == woken_one(
                pending(s.send_select_waiters),
                BoardView { cells: b.cells.insert(r->Wait_0.cell(), usize::MAX), ..b },
            )
        },
        s.recv_step(b, thread, r, after, b_after) && r is Done ==> after.ports == s.ports
            && after.send_select_waiters == s.send_select_waiters && b_after.cells == b.cells,
        s.recheck_step(b, guard, r, after, b_after) && r is Wait ==> {
            &&& r == Step::<Result<T, RecvError>, RecvWaiterGuard>::Wait(guard)
            &&& after == s
            &&& b_after == b
        },
        s.recheck_step(b, guard, r, after, b_after) && r is Done ==> {
            &&& after.ports.recv_waiters == s.ports.recv_waiters.filter(
                |w: RecvWaiter| w.selected != guard.cell(),
            )
            &&& after.send_select_waiters == s.send_select_waiters
            &&& b_after.cells == b.cells.remove(guard.cell())
        },
{
    law_receive_takes_the_last_parked(s, b);
    law_without_is_a_filter(s.ports.recv_waiters, guard.cell());
}

/// Waits and handles change only what is theirs: the list of blocked receives and the counts. A
/// wait also clears the send arms, which are woken by it. The last receiver takes all select
/// waiters along, unparks every parked sender and wakes every send arm; any other receiver wakes
/// nobody.
pub proof fn law_handles_leave_sends<T>(
    s: RendezvousView<T>,
    b: BoardView,
    waiter: RecvWaiter,
    cell: u64,
)
    ensures
        s.waiting(waiter) == (RendezvousView {
            parked: s.parked,
            taken: s.taken,
            ports: s.ports.waiting(waiter),
            send_select_waiters: Seq::empty(),
        }),
        s.released(cell) == (RendezvousView {
            parked: s.parked,
            taken: s.taken,
            ports: s.ports.released(cell),
            send_select_waiters: s.send_select_waiters,
        }),
        s.sender_added() == (RendezvousView {
            parked: s.parked,
            taken: s.taken,
            ports: s.ports.sender_added(),
            send_select_waiters: s.send_select_waiters,
        }),
        s.sender_closed() == (RendezvousView {
            parked: s.parked,
            taken: s.taken,
            ports: s.ports.sender_closed(),
            send_select_waiters: s.send_select_waiters,
        }),
        s.receiver_added() == (RendezvousView {
            parked: s.parked,
            taken: s.taken,
            ports: s.ports.receiver_added(),
            send_select_waiters: s.send_select_waiters,
        }),
        s.receiver_closed().parked == s.parked,
        s.receiver_closed().taken == s.taken,
        s.receiver_closed().ports == s.ports.receiver_closed(),
        s.ports.receivers > 1 ==> s.receiver_closed().send_select_waiters == s.send_select_waiters
            && s.receiver_closed_wakes(b) == b,
        s.ports.receivers == 1 ==> {
            &&& s.receiver_closed().send_select_waiters.len() == 0
            &&& s.receiver_closed_wakes(b).cells == woken_all(
                pending(s.send_select_waiters),
                b,
            ).cells
            &&& s.receiver_closed_wakes(b).turn == b.turn
        },
{
    if s.ports.receivers == 1 {
        lemma_unparking_leaves_cells(s.parked, b);
        lemma_cells_ignore_the_log(
            pending(s.send_select_waiters),
            unparked_senders(s.parked, b),
            b,
        );
        law_wakeups_touch_only_waited_cells(
            pending(s.send_select_waiters),
            unparked_senders(s.parked, b),
        );
    }
}

proof fn lemma_unparking_leaves_cells<T>(parked: Seq<Parked<T>>, b: BoardView)
    ensures
        unparked_senders(parked, b).cells == b.cells,
        unparked_senders(parked, b).turn == b.turn,
    decreases parked.len(),
{
    if parked.len() > 0 {
        lemma_unparking_leaves_cells(parked.drop_last(), b.unpark(parked.last().thread));
    }
}

proof fn lemma_cells_ignore_the_log(ws: Seq<RecvWaiter>, a: BoardView, b: BoardView)
    requires
        a.cells == b.cells,
    ensures
        woken_all(ws, a).cells == woken_all(ws, b).cells,
    decreases ws.len(),
{
    if ws.len() > 0 {
        lemma_cells_ignore_the_log(
            ws.drop_first(),
            a.claim(ws[0].selected, ws[0].case_id).unpark(ws[0].thread),
            b.claim(ws[0].selected, ws[0].case_id).unpark(ws[0].thread),
        );
    }
}

/// A recv arm is ready exactly if a sender is parked or no sender is left, and its completion is a
/// receive: the value of the sender that parked last, or the disconnection, or a wait.
pub proof fn law_recv_arm_receives<T>(
    rx: Receiver<T>,
    s: RendezvousView<T>,
    b: BoardView,
    thread: u64,
    after: (Receiver<T>, RendezvousView<T>, BoardView),
    r: Step<Result<T, RecvError>, RecvWaiterGuard>,
)
    ensures
        rx.ready(s) <==> s.parked.len() > 0 || s.ports.senders == 0,
        rx.fits(s),
        rx.looked(s) == rx,
        rx.enrolled(s) == rx,
        rx.enlists(s),
        rx.port() == Port::Recv,
        Receiver::<T>::completes((rx, s, b), thread, after, r) ==> {
            &&& after.0 == rx
            &&& s.parked.len() > 0 ==> {
                &&& r == Step::<Result<T, RecvError>, RecvWaiterGuard>::Done(
                    Ok(s.parked[s.parked.len() - 1].value),
                )
                &&& after.1.parked == s.parked.take(s.parked.len() - 1)
                &&& after.1.taken == s.taken.insert(s.parked[s.parked.len() - 1].ticket)
                &&& after.2.unparked == b.unparked.push(s.parked[s.parked.len() - 1].thread)
            }
            &&& s.parked.len() == 0 && s.ports.senders == 0 ==> {
                &&& r == Step::<Result<T, RecvError>, RecvWaiterGuard>::Done(
                    Err(RecvError::Disconnected),
                )
                &&& after.1 == s
                &&& after.2 == b
            }
            &&& s.parked.len() == 0 && s.ports.senders > 0 ==> r is Wait && after.1.parked
                == s.parked && after.1.ports.recv_waiters.len() == s.ports.recv_waiters.len() + 1
        },
{
    law_receive_takes_the_last_parked(s, b);
}

/// A send arm is ready exactly if a receive is blocked or no receiver is left, and its completion
/// is a send: the value comes back if no receiver is left, and else parks on top of the others.
pub proof fn law_send_arm_sends<T: Send>(
    tx: Sender<T>,
    s: RendezvousView<T>,
    b: BoardView,
    value: T,
    thread: u64,
    after: (RendezvousView<T>, BoardView),
    r: Step<Result<(), SendError<T>>, ParkedSend>,
)
    ensures
        tx.ready(s) <==> s.ports.recv_waiters.len() > 0 || s.ports.receivers == 0,
        tx.fits(s),
        tx.looked(s) == tx,
        tx.enrolled(s) == tx,
        tx.enlists(s),
        tx.port() == Port::Send,
        tx.sends((s, b), value, thread, after, r) ==> {
            &&& s.ports.receivers == 0 ==> {
                &&& r == Step::<Result<(), SendError<T>>, ParkedSend>::Done(Err(SendError(value)))
                &&& after == (s, b)
            }
            &&& s.ports.receivers > 0 ==> {
                &&& r is Wait
                &&& after.0.parked == s.parked.push(
                    Parked { ticket: r->Wait_0.ticket(), value, thread },
                )
                &&& after.0.taken == s.taken
            }
        },
{
}

/// As a world of a select, a channel shows its contents, with a stack of waiters at each side.
pub proof fn law_channel_is_its_own_world<T>(
    chan: Chan<T>,
    s: RendezvousView<T>,
    waiters: Seq<SelectWaiter>,
)
    ensures
        chan.state() == chan@,
        chan.valid() == chan.wf(),
        <Chan<T> as Channels>::has_port(s, Port::Recv),
        <Chan<T> as Channels>::has_port(s, Port::Send),
        <Chan<T> as Channels>::stack(s, Port::Recv) == s.ports.select_waiters,
        <Chan<T> as Channels>::stack(s, Port::Send) == s.send_select_waiters,
        <Chan<T> as Channels>::with_stack(s, Port::Recv, waiters) == (RendezvousView {
            ports: PortsView { select_waiters: waiters, ..s.ports },
            ..s
        }),
        <Chan<T> as Channels>::with_stack(s, Port::Send, waiters) == (RendezvousView {
            send_select_waiters: waiters,
            ..s
        }),
        s.stack(Port::Recv) == s.ports.select_waiters,
        s.stack(Port::Send) == s.send_select_waiters,
{
}

} // verus!
