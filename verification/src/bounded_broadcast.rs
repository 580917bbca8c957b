//! Bounded broadcast channel with lag detection.
//!
//! Every receiver gets every message, at its own pace: each has a cursor of its own into the
//! history of messages. Only the latest messages are kept, as many as the capacity says. A receiver
//! that has fallen behind further than that is told once how many messages it missed, and goes on
//! with the oldest message that is still there. A cloned receiver joins at the end of the history:
//! it gets what is sent from then on.
use vstd::prelude::*;

use core::marker::PhantomData;

use crate::error::{RecvError, SendError, TryRecvError};
use crate::ports::{Ports, PortsView, Step};
use crate::selectable::{ArmOpTrait, Channels, SelectableReceiver};
use crate::store::Store;
use crate::tickets::{held, TicketCell};
use crate::waiter::{
    abort_select_waiters, law_nudge_unparks_the_unselected, law_wake_all_unparks_everyone,
    law_without_is_a_filter, nudged, pending, push_select_waiter, register_plain_recv_waiter,
    threads_of, unselected_threads, wake_all_unselected_recv_waiters, wake_select_all,
    waits_unselected, woken_all, Board, BoardView, RecvWaiter, RecvWaiterGuard, SelectWaiter,
    UNSELECTED,
};

verus! {

// ── Model ────────────────────────────────────────────────────────────────────
/// The contents of a broadcast channel.
#[verifier::ext_equal]
pub struct BroadcastView<T> {
    /// All messages ever sent.
    pub history: Seq<T>,
    /// How many of the latest messages are kept.
    pub capacity: nat,
    /// Waiters and handle counts.
    pub ports: PortsView,
}

impl<T> BroadcastView<T> {
    pub open spec fn fresh(capacity: nat) -> Self {
        BroadcastView { history: Seq::empty(), capacity, ports: PortsView::fresh() }
    }

    /// The position of the oldest message that is still kept.
    pub open spec fn oldest(self) -> nat {
        if self.history.len() > self.capacity {
            (self.history.len() - self.capacity) as nat
        } else {
            0
        }
    }

    /// The message that makes room for the next one, if the channel keeps its full number.
    pub open spec fn making_room(self) -> Option<T> {
        if self.history.len() < self.capacity {
            None
        } else {
            Some(self.history[self.history.len() - self.capacity])
        }
    }

    // ── Sending ──────────────────────────────────────────────────────────
    /// What a send reports that gives `done` on success: with no receiver left, the value comes
    /// back.
    pub open spec fn send_result<R>(self, value: T, done: R) -> Result<R, SendError<T>> {
        if self.ports.receivers > 0 {
            Ok(done)
        } else {
            Err(SendError(value))
        }
    }

    /// After an attempt to send.
    pub open spec fn sent(self, value: T) -> Self {
        if self.ports.receivers > 0 {
            BroadcastView {
                history: self.history.push(value),
                ports: self.ports.select_drained(),
                ..self
            }
        } else {
            self
        }
    }

    /// Whom an attempt to send wakes: every blocked receive whose cell is unclaimed, and every recv
    /// arm.
    pub open spec fn sent_wakes(self, b: BoardView) -> BoardView {
        if self.ports.receivers > 0 {
            woken_all(pending(self.ports.select_waiters), nudged(self.ports.recv_waiters, b))
        } else {
            b
        }
    }

    // ── Receiving ────────────────────────────────────────────────────────
    /// A receiver at this position has nothing to report: it has seen everything, and more may
    /// come.
    pub open spec fn is_idle(self, next: nat) -> bool {
        next == self.history.len() && self.ports.senders > 0
    }

    /// With one more thread blocked in a receive.
    pub open spec fn waiting(self, waiter: RecvWaiter) -> Self {
        BroadcastView { ports: self.ports.waiting(waiter), ..self }
    }

    /// Without the blocked receive of the given cell.
    pub open spec fn released(self, cell: u64) -> Self {
        BroadcastView { ports: self.ports.released(cell), ..self }
    }

    // ── Handles ──────────────────────────────────────────────────────────
    /// Where a receiver begins that joins now.
    pub open spec fn joining(self) -> nat {
        self.history.len()
    }

    pub open spec fn sender_added(self) -> Self {
        BroadcastView { ports: self.ports.sender_added(), ..self }
    }

    pub open spec fn sender_closed(self) -> Self {
        BroadcastView { ports: self.ports.sender_closed(), ..self }
    }

    pub open spec fn receiver_added(self) -> Self {
        BroadcastView { ports: self.ports.receiver_added(), ..self }
    }

    pub open spec fn receiver_closed(self) -> Self {
        BroadcastView { ports: self.ports.receiver_closed(), ..self }
    }
}

impl<T: Clone> BroadcastView<T> {
    /// What a receiver that is not idle gets, and where it stands afterwards: a clone of the
    /// message at its position; or the number of messages it missed, if that message is no longer
    /// kept; or the disconnection, if there is no message and never will be.
    pub open spec fn receives(
        self,
        next: nat,
        out: Result<T, RecvError>,
        next_after: nat,
    ) -> bool {
        if next >= self.history.len() {
            &&& out == Err::<T, RecvError>(RecvError::Disconnected)
            &&& next_after == next
        } else if next < self.oldest() {
            &&& out matches Err(RecvError::Lagged { skipped })
            &&& skipped == self.oldest() - next
            &&& next_after == self.oldest()
        } else {
            &&& out matches Ok(value)
            &&& cloned(self.history[next as int], value)
            &&& next_after == next + 1
        }
    }

    /// What a non-blocking receive may return, and where the receiver stands afterwards.
    pub open spec fn try_receives(
        self,
        next: nat,
        r: Result<T, TryRecvError>,
        next_after: nat,
    ) -> bool {
        if self.is_idle(next) {
            r == Err::<T, TryRecvError>(TryRecvError::Empty) && next_after == next
        } else {
            match r {
                Ok(value) => self.receives(next, Ok(value), next_after),
                Err(TryRecvError::Lagged { skipped }) => self.receives(
                    next,
                    Err(RecvError::Lagged { skipped }),
                    next_after,
                ),
                Err(TryRecvError::Disconnected) => self.receives(
                    next,
                    Err(RecvError::Disconnected),
                    next_after,
                ),
                Err(TryRecvError::Empty) => false,
            }
        }
    }

    /// What the first step of a blocking receive may lead to: what the receiver gets, or a wait on
    /// a fresh cell.
    pub open spec fn recv_step(
        self,
        next: nat,
        b: BoardView,
        thread: u64,
        r: Step<Result<T, RecvError>, RecvWaiterGuard>,
        next_after: nat,
        after: Self,
        b_after: BoardView,
    ) -> bool {
        if self.is_idle(next) {
            &&& r matches Step::Wait(guard)
            &&& !b.cells.contains_key(guard.cell())
            &&& next_after == next
            &&& after == self.waiting(
                RecvWaiter { case_id: UNSELECTED, selected: guard.cell(), thread },
            )
            &&& b_after == b.opened(guard.cell())
        } else {
            &&& r matches Step::Done(out)
            &&& self.receives(next, out, next_after)
            &&& after == self
            &&& b_after == b
        }
    }

    /// What the second look of a registered receive may lead to: what the receiver gets by now,
    /// with the registration undone; else the thread is to park. A receive whose cell was claimed
    /// begins anew, since a send would not wake it.
    pub open spec fn recheck_step(
        self,
        next: nat,
        b: BoardView,
        thread: u64,
        guard: RecvWaiterGuard,
        r: Step<Result<T, RecvError>, RecvWaiterGuard>,
        next_after: nat,
        after: Self,
        b_after: BoardView,
    ) -> bool {
        if self.is_idle(next) && b.unselected(guard.cell()) {
            &&& r == Step::<Result<T, RecvError>, RecvWaiterGuard>::Wait(guard)
            &&& next_after == next
            &&& after == self
            &&& b_after == b
        } else {
            self.released(guard.cell()).recv_step(
                next,
                b.closed(guard.cell()),
                thread,
                r,
                next_after,
                after,
                b_after,
            )
        }
    }
}

// ── Channel ──────────────────────────────────────────────────────────────────
/// The state that all handles of a channel share.
pub struct Chan<T> {
    /// The message at position `p` has its ticket in slot `p % slots.len()`.
    slots: Vec<TicketCell>,
    store: Store<T>,
    /// The position of the next message.
    write_seq: usize,
    ports: Ports,
    history: Ghost<Seq<T>>,
}

impl<T> View for Chan<T> {
    type V = BroadcastView<T>;

    closed spec fn view(&self) -> BroadcastView<T> {
        BroadcastView {
            history: self.history@,
            capacity: self.slots@.len(),
            ports: self.ports@,
        }
    }
}

impl<T> Chan<T> {
    /// The slot of a position.
    spec fn slot_of(&self, p: int) -> int {
        p % (self.slots@.len() as int)
    }

    /// The slot holds a ticket for this value.
    spec fn slot_has(&self, j: int, value: T) -> bool {
        held(self.slots@[j]) matches Some(ticket) && self.store@.contains_key(ticket)
            && self.store@[ticket] == value
    }

    /// There are slots, every message that is kept is in its slot, no two slots hold the same
    /// ticket, and slots that were not used yet hold none.
    pub closed spec fn wf(&self) -> bool {
        &&& self.slots@.len() > 0
        &&& self.store.wf()
        &&& self.write_seq == self.history@.len()
        &&& forall|p: int|
            self@.oldest() <= p < self.history@.len() ==> self.slot_has(
                self.slot_of(p),
                #[trigger] self.history@[p],
            )
        &&& forall|i: int, j: int|
            0 <= i < j < self.slots@.len() && held(#[trigger] self.slots@[i]) is Some ==> held(
                self.slots@[i],
            ) != held(#[trigger] self.slots@[j])
        &&& forall|j: int|
            0 <= j < self.slots@.len() ==> (held(#[trigger] self.slots@[j]) matches Some(ticket)
                ==> self.store@.contains_key(ticket))
        &&& forall|j: int|
            self.history@.len() <= j < self.slots@.len() ==> held(#[trigger] self.slots@[j]) is None
    }

    /// The capacity is positive, and positions fit the machine word.
    pub proof fn law_capacity_is_positive(&self)
        requires
            self.wf(),
        ensures
            self@.capacity > 0,
            self@.history.len() <= usize::MAX,
    {
    }
}

proof fn lemma_slots_differ(a: int, b: int, n: int)
    requires
        n > 0,
        a < b < a + n,
    ensures
        a % n != b % n,
{
    vstd::arithmetic::div_mod::lemma_fundamental_div_mod(a, n);
    vstd::arithmetic::div_mod::lemma_fundamental_div_mod(b, n);
    if a % n == b % n {
        let k = b / n - a / n;
        assert(b - a == n * k) by (nonlinear_arith)
            requires
                a == n * (a / n) + a % n,
                b == n * (b / n) + b % n,
                a % n == b % n,
                k == b / n - a / n,
        ;
        assert(k > 0) by (nonlinear_arith)
            requires
                n > 0,
                n * k > 0,
        ;
        assert(n * k >= n) by (nonlinear_arith)
            requires
                n > 0,
                k >= 1,
        ;
    }
}

/// A sender handle.
pub struct Sender<T> {
    _message: PhantomData<T>,
}

/// A receiver handle, with the position of the message it gets next.
pub struct Receiver<T> {
    pub next_seq: usize,
    pub message: PhantomData<T>,
}

/// Creates a channel that keeps the latest `capacity` messages, with its first sender and receiver.
pub fn channel<T>(capacity: usize) -> (r: (Chan<T>, Sender<T>, Receiver<T>))
    requires
        capacity > 0,
    ensures
        r.0.wf(),
        r.0@ == BroadcastView::<T>::fresh(capacity as nat),
        r.2.next_seq == 0,
        r.2.next_seq == r.0@.joining(),
{
    let mut slots: Vec<TicketCell> = Vec::new();
    while slots.len() < capacity
        invariant
            slots@.len() <= capacity,
            forall|j: int| 0 <= j < slots@.len() ==> held(#[trigger] slots@[j]) is None,
        decreases capacity - slots.len(),
    {
        slots.push(TicketCell::empty());
    }
    let chan = Chan {
        slots,
        store: Store::new(),
        write_seq: 0,
        ports: Ports::new(),
        history: Ghost(Seq::empty()),
    };
    (chan, Sender { _message: PhantomData }, Receiver { next_seq: 0, message: PhantomData })
}

impl<T> Sender<T> {
    /// Another handle on the same channel.
    pub fn clone(&self, chan: &mut Chan<T>) -> (r: Sender<T>)
        requires
            old(chan).wf(),
            old(chan)@.ports.senders < usize::MAX,
        ensures
            final(chan).wf(),
            final(chan)@ == old(chan)@.sender_added(),
    {
        chan.ports.add_sender();
        Sender { _message: PhantomData }
    }

    /// Gives the handle up. With the last sender, everybody who waits to receive is woken.
    pub fn close(self, chan: &mut Chan<T>, board: &mut Board)
        requires
            old(chan).wf(),
            old(board).wf(),
            old(chan)@.ports.senders > 0,
        ensures
            final(chan).wf(),
            final(board).wf(),
            final(chan)@ == old(chan)@.sender_closed(),
            final(board)@ == old(chan)@.ports.sender_closed_wakes(old(board)@),
    {
        chan.ports.close_sender(board);
    }

    /// Whether the channel has counted as many messages as the machine word allows, so that no
    /// further one can be sent.
    pub fn is_exhausted(&self, chan: &Chan<T>) -> (r: bool)
        requires
            chan.wf(),
        ensures
            r == (chan@.history.len() == usize::MAX),
    {
        chan.write_seq == usize::MAX
    }

    /// Sends `value` to all receivers and wakes everybody who waits; hands it back if all receivers
    /// are gone.
    ///
    /// The oldest message makes room if the channel keeps its full number. The channel must not be
    /// exhausted.
    pub fn send(&self, chan: &mut Chan<T>, board: &mut Board, value: T) -> (r: Result<
        (),
        SendError<T>,
    >)
        requires
            old(chan).wf(),
            old(board).wf(),
            old(chan)@.history.len() < usize::MAX,
        ensures
            final(chan).wf(),
            final(board).wf(),
            r == (if old(chan)@.ports.receivers > 0 {
                Ok(())
            } else {
                Err(SendError(value))
            }),
            r == old(chan)@.send_result(value, ()),
            final(chan)@ == old(chan)@.sent(value),
            final(board)@ == old(chan)@.sent_wakes(old(board)@),
    {
        match self.send_replacing(chan, board, value) {
            Ok(_) => Ok(()),
            Err(e) => Err(e),
        }
    }

    /// As [`Sender::send`], but hands the message out that made room, so that the caller can drop
    /// it where its destructor does no harm.
    pub fn send_replacing(&self, chan: &mut Chan<T>, board: &mut Board, value: T) -> (r: Result<
        Option<T>,
        SendError<T>,
    >)
        requires
            old(chan).wf(),
            old(board).wf(),
            old(chan)@.history.len() < usize::MAX,
        ensures
            final(chan).wf(),
            final(board).wf(),
            r == (if old(chan)@.ports.receivers > 0 {
                Ok(old(chan)@.making_room())
            } else {
                Err(SendError(value))
            }),
            r == old(chan)@.send_result(value, old(chan)@.making_room()),
            final(chan)@ == old(chan)@.sent(value),
            final(board)@ == old(chan)@.sent_wakes(old(board)@),
    {
        if self.is_closed(chan) {
            return Err(SendError(value));
        }
        let ghost before = *chan;
        let seq: usize = chan.write_seq;
        chan.write_seq = seq + 1;
        let slot: usize = seq % chan.slots.len();
        let replaced: Option<T> = match chan.slots[slot].load_full() {
            Some(stale) => chan.store.take(stale),
            None => None,
        };
        let ghost emptied = chan.store@;
        let ticket = chan.store.insert(value);
        chan.slots[slot].store(Some(ticket));
        proof {
            chan.history@ = chan.history@.push(value);
            let n = chan.slots@.len() as int;
            if seq < n {
                vstd::arithmetic::div_mod::lemma_small_mod(seq as nat, n as nat);
            } else {
                vstd::arithmetic::div_mod::lemma_mod_sub_multiples_vanish(seq as int, n);
                assert(before.slot_has(before.slot_of(seq - n), before.history@[seq - n]));
            }
            assert(replaced == before@.making_room());
            assert forall|j: int| 0 <= j < n && j != slot implies #[trigger] chan.slots@[j]
                == before.slots@[j] by {}
            assert forall|j: int| 0 <= j < n && j != slot implies held(#[trigger] chan.slots@[j])
                != Some(ticket) && (held(chan.slots@[j]) matches Some(t) ==> emptied.contains_key(t)
                && before.store@[t] == chan.store@[t]) by {
                assert(chan.slots@[j] == before.slots@[j]);
                if held(before.slots@[j]) is Some {
                    if j < slot {
                        assert(held(before.slots@[j]) != held(before.slots@[slot as int]));
                    } else if held(before.slots@[slot as int]) is Some {
                        assert(held(before.slots@[slot as int]) != held(before.slots@[j]));
                    }
                }
            }
            assert forall|p: int|
                chan@.oldest() <= p < chan.history@.len() implies chan.slot_has(
                chan.slot_of(p),
                #[trigger] chan.history@[p],
            ) by {
                if p < seq {
                    lemma_slots_differ(p, seq as int, n);
                    assert(chan.history@[p] == before.history@[p]);
                    assert(before.slot_has(before.slot_of(p), before.history@[p]));
                    assert(0 <= p % n < n);
                    assert(chan.slots@[p % n] == before.slots@[p % n]);
                }
            }
        }
        wake_all_unselected_recv_waiters(&chan.ports.recv_waiters, board);
        wake_select_all(&mut chan.ports.select_waiters, board);
        Ok(replaced)
    }

    /// Whether all receivers are gone.
    pub fn is_closed(&self, chan: &Chan<T>) -> (r: bool)
        ensures
            r == (chan@.ports.receivers == 0),
    {
        chan.ports.receiver_count == 0
    }
}

impl<T> Receiver<T> {
    /// Another handle on the same channel, which gets what is sent from now on.
    pub fn clone(&self, chan: &mut Chan<T>) -> (r: Receiver<T>)
        requires
            old(chan).wf(),
            old(chan)@.ports.receivers < usize::MAX,
        ensures
            final(chan).wf(),
            final(chan)@ == old(chan)@.receiver_added(),
            r.next_seq == old(chan)@.history.len(),
            r.next_seq == old(chan)@.joining(),
    {
        chan.ports.add_receiver();
        Receiver { next_seq: chan.write_seq, message: PhantomData }
    }

    /// Gives the handle up.
    pub fn close(self, chan: &mut Chan<T>)
        requires
            old(chan).wf(),
            old(chan)@.ports.receivers > 0,
        ensures
            final(chan).wf(),
            final(chan)@ == old(chan)@.receiver_closed(),
    {
        let _ = chan.ports.close_receiver();
    }
}

impl<T: Clone> Receiver<T> {
    /// Receives without waiting.
    pub fn try_recv(&mut self, chan: &Chan<T>) -> (r: Result<T, TryRecvError>)
        requires
            chan.wf(),
            old(self).next_seq <= chan@.history.len(),
        ensures
            chan@.try_receives(old(self).next_seq as nat, r, final(self).next_seq as nat),
            final(self).next_seq <= chan@.history.len(),
            final(self).message == old(self).message,
    {
        let next: usize = self.next_seq;
        let write: usize = chan.write_seq;
        if write == next {
            return if chan.ports.sender_count == 0 {
                Err(TryRecvError::Disconnected)
            } else {
                Err(TryRecvError::Empty)
            };
        }
        let oldest: usize = write.saturating_sub(chan.slots.len());
        if next < oldest {
            let skipped: usize = oldest - next;
            self.next_seq = oldest;
            return Err(TryRecvError::Lagged { skipped });
        }
        assert(chan.slot_has(chan.slot_of(next as int), chan.history@[next as int]));
        let slot: usize = next % chan.slots.len();
        let message: Option<&T> = match chan.slots[slot].load_full() {
            Some(ticket) => chan.store.get(ticket),
            None => None,
        };
        match message {
            Some(message) => {
                self.next_seq = next + 1;
                Ok(message.clone())
            },
            None => {
                assert(false);
                Err(TryRecvError::Empty)
            },
        }
    }

    /// Begins a blocking receive: gets what is there, or registers `thread` as a waiter.
    ///
    /// After `Wait` comes [`Receiver::recheck`].
    pub fn recv(&mut self, chan: &mut Chan<T>, board: &mut Board, thread: u64) -> (r: Step<
        Result<T, RecvError>,
        RecvWaiterGuard,
    >)
        requires
            old(chan).wf(),
            old(board).wf(),
            old(self).next_seq <= old(chan)@.history.len(),
        ensures
            final(chan).wf(),
            final(board).wf(),
            final(self).next_seq <= final(chan)@.history.len(),
            final(self).message == old(self).message,
            old(chan)@.recv_step(
                old(self).next_seq as nat,
                old(board)@,
                thread,
                r,
                final(self).next_seq as nat,
                final(chan)@,
                final(board)@,
            ),
    {
        match self.try_recv(chan) {
            Ok(value) => Step::Done(Ok(value)),
            Err(TryRecvError::Lagged { skipped }) => Step::Done(Err(RecvError::Lagged { skipped })),
            Err(TryRecvError::Disconnected) => Step::Done(Err(RecvError::Disconnected)),
            Err(TryRecvError::Empty) => Step::Wait(
                register_plain_recv_waiter(&mut chan.ports.recv_waiters, board, thread),
            ),
        }
    }

    /// Looks again after registration, so that what happened in between is not missed.
    ///
    /// After `Wait` the thread parks, and once it is unparked comes [`Receiver::resume`].
    pub fn recheck(
        &mut self,
        chan: &mut Chan<T>,
        board: &mut Board,
        thread: u64,
        guard: RecvWaiterGuard,
    ) -> (r: Step<Result<T, RecvError>, RecvWaiterGuard>)
        requires
            old(chan).wf(),
            old(board).wf(),
            old(self).next_seq <= old(chan)@.history.len(),
        ensures
            final(chan).wf(),
            final(board).wf(),
            final(self).next_seq <= final(chan)@.history.len(),
            final(self).message == old(self).message,
            old(chan)@.recheck_step(
                old(self).next_seq as nat,
                old(board)@,
                thread,
                guard,
                r,
                final(self).next_seq as nat,
                final(chan)@,
                final(board)@,
            ),
    {
        let out = match self.try_recv(chan) {
            Ok(value) => Ok(value),
            Err(TryRecvError::Lagged { skipped }) => Err(RecvError::Lagged { skipped }),
            Err(TryRecvError::Disconnected) => Err(RecvError::Disconnected),
            Err(TryRecvError::Empty) => {
                let claimed: bool = match board.load(guard.marker()) {
                    Some(held) => held != UNSELECTED,
                    None => true,
                };
                return if claimed {
                    self.resume(chan, board, thread, guard)
                } else {
                    Step::Wait(guard)
                };
            },
        };
        guard.release(&mut chan.ports.recv_waiters, board);
        Step::Done(out)
    }

    /// Goes on after the thread was unparked: undoes the registration and begins anew.
    pub fn resume(
        &mut self,
        chan: &mut Chan<T>,
        board: &mut Board,
        thread: u64,
        guard: RecvWaiterGuard,
    ) -> (r: Step<Result<T, RecvError>, RecvWaiterGuard>)
        requires
            old(chan).wf(),
            old(board).wf(),
            old(self).next_seq <= old(chan)@.history.len(),
        ensures
            final(chan).wf(),
            final(board).wf(),
            final(self).next_seq <= final(chan)@.history.len(),
            final(self).message == old(self).message,
            old(chan)@.released(guard.cell()).recv_step(
                old(self).next_seq as nat,
                old(board)@.closed(guard.cell()),
                thread,
                r,
                final(self).next_seq as nat,
                final(chan)@,
                final(board)@,
            ),
    {
        guard.release(&mut chan.ports.recv_waiters, board);
        self.recv(chan, board, thread)
    }

    /// Receives after this arm of a select was selected.
    pub fn complete_recv(&mut self, chan: &mut Chan<T>, board: &mut Board, thread: u64) -> (r: Step<
        Result<T, RecvError>,
        RecvWaiterGuard,
    >)
        requires
            old(chan).wf(),
            old(board).wf(),
            old(self).next_seq <= old(chan)@.history.len(),
        ensures
            final(chan).wf(),
            final(board).wf(),
            final(self).next_seq <= final(chan)@.history.len(),
            final(self).message == old(self).message,
            old(chan)@.recv_step(
                old(self).next_seq as nat,
                old(board)@,
                thread,
                r,
                final(self).next_seq as nat,
                final(chan)@,
                final(board)@,
            ),
    {
        self.recv(chan, board, thread)
    }
}

// ── Select ───────────────────────────────────────────────────────────────────
impl<T> Channels for Chan<T> {
    type State = BroadcastView<T>;

    type Port = ();

    open spec fn state(&self) -> BroadcastView<T> {
        self@
    }

    open spec fn valid(&self) -> bool {
        self.wf()
    }

    open spec fn has_port(s: BroadcastView<T>, port: ()) -> bool {
        true
    }

    open spec fn stack(s: BroadcastView<T>, port: ()) -> Seq<SelectWaiter> {
        s.ports.select_waiters
    }

    open spec fn with_stack(
        s: BroadcastView<T>,
        port: (),
        waiters: Seq<SelectWaiter>,
    ) -> BroadcastView<T> {
        BroadcastView { ports: PortsView { select_waiters: waiters, ..s.ports }, ..s }
    }

    proof fn stacks_are_independent(
        s: BroadcastView<T>,
        port: (),
        other: (),
        waiters: Seq<SelectWaiter>,
    ) {
    }
}

impl<T> ArmOpTrait for Receiver<T> {
    type World = Chan<T>;

    open spec fn fits(&self, s: BroadcastView<T>) -> bool {
        self.next_seq <= s.history.len()
    }

    /// There is a message that the receiver has not seen, or all senders are gone.
    open spec fn ready(&self, s: BroadcastView<T>) -> bool {
        self.next_seq < s.history.len() || s.ports.senders == 0
    }

    open spec fn looked(&self, s: BroadcastView<T>) -> Self {
        *self
    }

    open spec fn enrolled(&self, s: BroadcastView<T>) -> Self {
        *self
    }

    open spec fn enlists(&self, s: BroadcastView<T>) -> bool {
        !self.ready(s)
    }

    open spec fn port(&self) -> () {
        ()
    }

    proof fn readiness_is_stable(&self, s: BroadcastView<T>, port: (), waiters: Seq<SelectWaiter>) {
    }

    fn is_ready(&mut self, world: &Chan<T>) -> (r: bool) {
        world.write_seq > self.next_seq || world.ports.sender_count == 0
    }

    fn register_select(&mut self, world: &mut Chan<T>, case_id: usize, selected: u64, thread: u64) {
        if world.write_seq > self.next_seq || world.ports.sender_count == 0 {
            return ;
        }
        push_select_waiter(
            SelectWaiter::new(case_id, selected, thread),
            &mut world.ports.select_waiters,
        );
    }

    fn abort_select(&self, world: &mut Chan<T>, selected: u64) {
        abort_select_waiters(&mut world.ports.select_waiters, selected);
    }
}

impl<T: Clone> SelectableReceiver for Receiver<T> {
    type Output = T;

    type Pending = RecvWaiterGuard;

    open spec fn completes(
        before: (Self, BroadcastView<T>, BoardView),
        thread: u64,
        after: (Self, BroadcastView<T>, BoardView),
        r: Step<Result<T, RecvError>, RecvWaiterGuard>,
    ) -> bool {
        &&& after.0.message == before.0.message
        &&& before.1.recv_step(
            before.0.next_seq as nat,
            before.2,
            thread,
            r,
            after.0.next_seq as nat,
            after.1,
            after.2,
        )
    }

    proof fn law_ready_arm_completes(
        before: (Self, BroadcastView<T>, BoardView),
        thread: u64,
        after: (Self, BroadcastView<T>, BoardView),
        r: Step<Result<T, RecvError>, RecvWaiterGuard>,
    ) {
    }

    proof fn law_idle_arm_waits(
        before: (Self, BroadcastView<T>, BoardView),
        thread: u64,
        after: (Self, BroadcastView<T>, BoardView),
        r: Step<Result<T, RecvError>, RecvWaiterGuard>,
    ) {
    }

    fn complete(&mut self, world: &mut Chan<T>, board: &mut Board, thread: u64) -> (r: Step<
        Result<T, RecvError>,
        RecvWaiterGuard,
    >) {
        self.complete_recv(world, board, thread)
    }
}

// ── Laws ─────────────────────────────────────────────────────────────────────
/// Sending appends to the history and changes nothing in it; only the latest messages count as
/// kept.
pub proof fn law_history_only_grows<T>(s: BroadcastView<T>, value: T)
    requires
        s.ports.receivers > 0,
    ensures
        s.sent(value).history == s.history.push(value),
        s.sent(value).capacity == s.capacity,
        s.oldest() <= s.sent(value).oldest() <= s.oldest() + 1,
        s.sent(value).history.len() - s.sent(value).oldest() <= s.capacity,
{
}

/// A receiver is told of lag exactly if more messages were sent since its last one than are kept,
/// and the number it is told is that of the messages it will never see: those from its position up
/// to the oldest that is kept.
pub proof fn law_lag_counts_the_missed_messages<T: Clone>(
    s: BroadcastView<T>,
    next: nat,
    out: Result<T, RecvError>,
    next_after: nat,
)
    requires
        next <= s.history.len(),
        s.capacity > 0,
        !s.is_idle(next),
        s.receives(next, out, next_after),
    ensures
        out matches Err(RecvError::Lagged { .. }) <==> s.history.len() - next > s.capacity,
        out matches Err(RecvError::Lagged { skipped }) ==> skipped > 0 && next + skipped
            == s.oldest() && next_after == s.oldest(),
{
}

/// Lag is reported once: right after it, the receiver gets the oldest message that is kept.
pub proof fn law_no_second_lag<T: Clone>(
    s: BroadcastView<T>,
    next: nat,
    lagged: Result<T, RecvError>,
    recovered: nat,
    out: Result<T, RecvError>,
    next_after: nat,
)
    requires
        s.capacity > 0,
        s.receives(next, lagged, recovered),
        lagged matches Err(RecvError::Lagged { .. }),
        s.receives(recovered, out, next_after),
    ensures
        !s.is_idle(recovered),
        out matches Ok(value) && cloned(s.history[s.oldest() as int], value),
{
}

/// A receiver gets the messages in the order in which they were sent, without gaps or repetition:
/// as long as it does not lag, its `j`-th receive gives the `j`-th message from where it started,
/// however much was sent in between.
///
/// `states` are the contents of the channel at each receive, and `positions` is where the receiver
/// stood before each and after the last.
pub proof fn law_messages_in_order<T: Clone>(
    states: Seq<BroadcastView<T>>,
    positions: Seq<nat>,
    values: Seq<T>,
    j: int,
)
    requires
        states.len() == values.len(),
        positions.len() == values.len() + 1,
        forall|k: int|
            0 <= k < values.len() ==> (#[trigger] states[k]).receives(
                positions[k],
                Ok(values[k]),
                positions[k + 1],
            ),
        forall|k: int, l: int|
            0 <= k <= l < states.len() ==> (#[trigger] states[k]).history.is_prefix_of(
                (#[trigger] states[l]).history,
            ),
        0 <= j < values.len(),
    ensures
        positions[j] == positions[0] + j,
        cloned(states.last().history[positions[0] + j], values[j]),
    decreases j,
{
    if j > 0 {
        law_messages_in_order(states, positions, values, j - 1);
        assert(states[j - 1].receives(positions[j - 1], Ok(values[j - 1]), positions[j - 1 + 1]));
    }
    assert(states[j].receives(positions[j], Ok(values[j]), positions[j + 1]));
    assert(states[j].history.is_prefix_of(states[states.len() - 1].history));
}

/// What one receiver does is of no concern to another: a receiver's position decides alone what it
/// gets, and messages sent later do not change what it gets, as long as it does not lag.
pub proof fn law_receivers_are_independent<T: Clone>(
    s: BroadcastView<T>,
    value: T,
    next: nat,
    out: Result<T, RecvError>,
    next_after: nat,
)
    requires
        s.ports.receivers > 0,
        next < s.history.len(),
        next >= s.sent(value).oldest(),
    ensures
        s.receives(next, out, next_after) == s.sent(value).receives(next, out, next_after),
{
}

/// A receiver that joins late sees only what is sent afterwards: at first it has nothing to get,
/// and the next message that is sent is its first.
pub proof fn law_clone_joins_at_the_end<T: Clone>(
    s: BroadcastView<T>,
    value: T,
    out: Result<T, RecvError>,
    next_after: nat,
)
    requires
        s.ports.receivers > 0,
        s.ports.senders > 0,
        s.capacity > 0,
        s.sent(value).receives(s.history.len(), out, next_after),
    ensures
        s.receiver_added().is_idle(s.history.len()),
        out matches Ok(first) && cloned(value, first),
{
}

/// The disconnection is reported only to a receiver that has seen every message, once all senders
/// are gone.
pub proof fn law_drained_before_disconnected<T: Clone>(
    s: BroadcastView<T>,
    next: nat,
    r: Result<T, TryRecvError>,
    next_after: nat,
)
    requires
        next <= s.history.len(),
        s.try_receives(next, r, next_after),
    ensures
        r == Err::<T, TryRecvError>(TryRecvError::Disconnected) <==> next == s.history.len()
            && s.ports.senders == 0,
        r == Err::<T, TryRecvError>(TryRecvError::Empty) <==> next == s.history.len()
            && s.ports.senders > 0,
{
}

/// A send unparks every blocked receive whose cell is unclaimed, and every waiting recv arm.
pub proof fn law_send_wakes_everybody<T>(s: BroadcastView<T>, b: BoardView)
    requires
        s.ports.receivers > 0,
    ensures
        s.sent_wakes(b).unparked == b.unparked + unselected_threads(s.ports.recv_waiters, b)
            + threads_of(pending(s.ports.select_waiters)),
        forall|i: int|
            0 <= i < s.ports.recv_waiters.len() && b.unselected(
                (#[trigger] s.ports.recv_waiters[i]).selected,
            ) ==> unselected_threads(s.ports.recv_waiters, b).contains(
                s.ports.recv_waiters[i].thread,
            ),
{
    let b1 = nudged(s.ports.recv_waiters, b);
    law_wake_all_unparks_everyone(pending(s.ports.select_waiters), b1);
    law_nudge_unparks_the_unselected(s.ports.recv_waiters, b);
    assert forall|i: int|
        0 <= i < s.ports.recv_waiters.len() && b.unselected(
            (#[trigger] s.ports.recv_waiters[i]).selected,
        ) implies unselected_threads(s.ports.recv_waiters, b).contains(
        s.ports.recv_waiters[i].thread,
    ) by {
        assert(waits_unselected(s.ports.recv_waiters, b, s.ports.recv_waiters[i].thread));
    }
}

// ── What the operations do ───────────────────────────────────────────────────
/// What a receive that does not wait may return, and where the receiver stands then. It lags
/// exactly if more messages were sent since its position than are kept; the count is then that of
/// the messages that are gone, and the receiver stands at the oldest that is kept: as many
/// positions from the end as are kept. It gets a clone of the message at its position exactly if
/// that is kept, and moves on by one. At the end of the history it finds the channel empty or
/// disconnected, according to whether a sender is left, and stays.
pub proof fn law_try_receive_reads_the_history<T: Clone>(
    s: BroadcastView<T>,
    next: nat,
    r: Result<T, TryRecvError>,
    next_after: nat,
)
    requires
        next <= s.history.len(),
        s.capacity > 0,
        s.try_receives(next, r, next_after),
    ensures
        r matches Err(TryRecvError::Lagged { .. }) <==> s.history.len() - next > s.capacity,
        r matches Err(TryRecvError::Lagged { skipped }) ==> next + skipped + s.capacity
            == s.history.len() && next_after == next + skipped,
        r is Ok <==> 0 < s.history.len() - next <= s.capacity,
        r matches Ok(value) ==> cloned(s.history[next as int], value) && next_after == next + 1,
        r == Err::<T, TryRecvError>(TryRecvError::Empty) <==> next == s.history.len()
            && s.ports.senders > 0,
        r == Err::<T, TryRecvError>(TryRecvError::Disconnected) <==> next == s.history.len()
            && s.ports.senders == 0,
        next == s.history.len() ==> next_after == next,
{
}

/// What a blocking receive comes to, in its first step and in its second look: what a receive that
/// does not wait would return, with a lag reported as such; or a wait, exactly at the end of the
/// history with a sender left. In the second look the same wait goes on while nobody has claimed its
/// cell, and else a new one takes its place.
pub proof fn law_blocking_receive_reads_the_history<T: Clone>(
    s: BroadcastView<T>,
    next: nat,
    b: BoardView,
    thread: u64,
    guard: RecvWaiterGuard,
    r: Step<Result<T, RecvError>, RecvWaiterGuard>,
    next_after: nat,
    after: BroadcastView<T>,
    b_after: BoardView,
)
    requires
        next <= s.history.len(),
        s.capacity > 0,
    ensures
        s.recv_step(next, b, thread, r, next_after, after, b_after) || s.recheck_step(
            next,
            b,
            thread,
            guard,
            r,
            next_after,
            after,
            b_after,
        ) ==> {
            &&& r is Wait <==> next == s.history.len() && s.ports.senders > 0
            &&& (r matches Step::Done(Err(RecvError::Lagged { .. }))) <==> s.history.len() - next
                > s.capacity
            &&& r matches Step::Done(Err(RecvError::Lagged { skipped })) ==> next + skipped
                + s.capacity == s.history.len() && next_after == next + skipped
            &&& (r matches Step::Done(Ok(_))) <==> 0 < s.history.len() - next <= s.capacity
            &&& r matches Step::Done(Ok(value)) ==> cloned(s.history[next as int], value)
                && next_after == next + 1
            &&& (r matches Step::Done(Err(RecvError::Disconnected))) <==> next == s.history.len()
                && s.ports.senders == 0
            &&& next == s.history.len() ==> next_after == next
            &&& after.history == s.history
            &&& after.capacity == s.capacity
            &&& after.ports.senders == s.ports.senders
            &&& after.ports.receivers == s.ports.receivers
            &&& after.ports.select_waiters == s.ports.select_waiters
            &&& b_after.unparked == b.unparked
            &&& b_after.turn == b.turn
        },
        s.recv_step(next, b, thread, r, next_after, after, b_after) && r is Done ==> after == s
            && b_after == b,
        s.recv_step(next, b, thread, r, next_after, after, b_after) && r is Wait ==> {
            &&& !b.cells.contains_key(r->Wait_0.cell())
            &&& after.ports.recv_waiters == s.ports.recv_waiters.push(
                RecvWaiter { case_id: usize::MAX, selected: r->Wait_0.cell(), thread },
            )
            &&& b_after.cells == b.cells.insert(r->Wait_0.cell(), usize::MAX)
        },
        s.recheck_step(next, b, thread, guard, r, next_after, after, b_after) && r is Done ==> {
            &&& after.ports.recv_waiters == s.ports.recv_waiters.filter(
                |w: RecvWaiter| w.selected != guard.cell(),
            )
            &&& b_after.cells == b.cells.remove(guard.cell())
        },
        s.recheck_step(next, b, thread, guard, r, next_after, after, b_after)
            && b.cells.contains_key(guard.cell()) && b.cells[guard.cell()] == usize::MAX
            && r is Wait ==> {
            &&& r == Step::<Result<T, RecvError>, RecvWaiterGuard>::Wait(guard)
            &&& after == s
            &&& b_after == b
        },
        s.recheck_step(next, b, thread, guard, r, next_after, after, b_after)
            && !(b.cells.contains_key(guard.cell()) && b.cells[guard.cell()] == usize::MAX)
            && r is Wait ==> {
            &&& !b.cells.remove(guard.cell()).contains_key(r->Wait_0.cell())
            &&& after.ports.recv_waiters == s.ports.recv_waiters.filter(
                |w: RecvWaiter| w.selected != guard.cell(),
            ).push(RecvWaiter { case_id: usize::MAX, selected: r->Wait_0.cell(), thread })
            &&& b_after.cells == b.cells.remove(guard.cell()).insert(
                r->Wait_0.cell(),
                usize::MAX,
            )
        },
{
    law_without_is_a_filter(s.ports.recv_waiters, guard.cell());
}

/// A send with a receiver left puts its message at the end of the history and changes nothing
/// before it, nudges every blocked receive and wakes every recv arm, and takes the arms off their
/// stack. With no receiver left nothing happens, and the message is handed back. The message that
/// makes room is the one that is no longer kept after the send: the one as many positions from the
/// end as are kept.
pub proof fn law_send_appends<T>(s: BroadcastView<T>, b: BoardView, value: T)
    ensures
        s.ports.receivers > 0 ==> {
            &&& s.sent(value).history == s.history.push(value)
            &&& s.sent(value).ports.select_waiters.len() == 0
            &&& s.sent_wakes(b) == woken_all(
                pending(s.ports.select_waiters),
                nudged(s.ports.recv_waiters, b),
            )
        },
        s.ports.receivers == 0 ==> s.sent(value) == s && s.sent_wakes(b) == b,
        s.ports.receivers > 0 ==> s.send_result(value, b) == Ok::<BoardView, SendError<T>>(b),
        s.ports.receivers == 0 ==> s.send_result(value, b) == Err::<BoardView, SendError<T>>(
            SendError(value),
        ),
        s.sent(value).capacity == s.capacity,
        s.sent(value).ports.recv_waiters == s.ports.recv_waiters,
        s.sent(value).ports.senders == s.ports.senders,
        s.sent(value).ports.receivers == s.ports.receivers,
        s.history.len() < s.capacity ==> s.making_room() is None,
        s.capacity > 0 && s.history.len() >= s.capacity ==> s.making_room() == Some(
            s.history[s.history.len() - s.capacity],
        ),
        s.history.len() > s.capacity ==> s.oldest() + s.capacity == s.history.len(),
        s.history.len() <= s.capacity ==> s.oldest() == 0,
{
}

/// A receiver that joins has nothing to read of what was sent before; the next message that is sent
/// is the first one it gets.
pub proof fn law_new_receiver_reads_what_comes_next<T: Clone>(
    s: BroadcastView<T>,
    out: Result<T, TryRecvError>,
    next_after: nat,
    value: T,
    received: Result<T, TryRecvError>,
    next_after_value: nat,
)
    requires
        s.try_receives(s.joining(), out, next_after),
        s.ports.receivers > 0,
        s.capacity > 0,
        s.sent(value).try_receives(s.joining(), received, next_after_value),
    ensures
        s.ports.senders > 0 ==> out == Err::<T, TryRecvError>(TryRecvError::Empty),
        s.ports.senders == 0 ==> out == Err::<T, TryRecvError>(TryRecvError::Disconnected),
        next_after == s.joining(),
        received is Ok,
        cloned(value, received->Ok_0),
        next_after_value == s.joining() + 1,
{
}

/// A new channel has no history, the capacity it was made with, one sender, one receiver and nobody
/// waiting; waits and handles change only what is theirs, never the history or the capacity.
pub proof fn law_handles_leave_the_history<T>(
    s: BroadcastView<T>,
    capacity: nat,
    waiter: RecvWaiter,
    cell: u64,
)
    ensures
        BroadcastView::<T>::fresh(capacity).history.len() == 0,
        BroadcastView::<T>::fresh(capacity).capacity == capacity,
        BroadcastView::<T>::fresh(capacity).ports == PortsView::fresh(),
        s.waiting(waiter) == (BroadcastView {
            history: s.history,
            capacity: s.capacity,
            ports: s.ports.waiting(waiter),
        }),
        s.released(cell) == (BroadcastView {
            history: s.history,
            capacity: s.capacity,
            ports: s.ports.released(cell),
        }),
        s.sender_added() == (BroadcastView {
            history: s.history,
            capacity: s.capacity,
            ports: s.ports.sender_added(),
        }),
        s.sender_closed() == (BroadcastView {
            history: s.history,
            capacity: s.capacity,
            ports: s.ports.sender_closed(),
        }),
        s.receiver_added() == (BroadcastView {
            history: s.history,
            capacity: s.capacity,
            ports: s.ports.receiver_added(),
        }),
        s.receiver_closed() == (BroadcastView {
            history: s.history,
            capacity: s.capacity,
            ports: s.ports.receiver_closed(),
        }),
{
}

/// A recv arm is ready exactly if there is a message past its position or no sender is left, leaves
/// a waiter exactly if it is not ready, and its completion reads the history at its position.
pub proof fn law_recv_arm_receives<T: Clone>(
    rx: Receiver<T>,
    s: BroadcastView<T>,
    b: BoardView,
    thread: u64,
    after: (Receiver<T>, BroadcastView<T>, BoardView),
    r: Step<Result<T, RecvError>, RecvWaiterGuard>,
)
    ensures
        rx.ready(s) <==> rx.next_seq < s.history.len() || s.ports.senders == 0,
        rx.enlists(s) <==> rx.next_seq >= s.history.len() && s.ports.senders > 0,
        rx.fits(s) <==> rx.next_seq <= s.history.len(),
        rx.looked(s) == rx,
        rx.enrolled(s) == rx,
        rx.next_seq <= s.history.len() && s.capacity > 0 && Receiver::<T>::completes(
            (rx, s, b),
            thread,
            after,
            r,
        ) ==> {
            let behind = s.history.len() - rx.next_seq;
            &&& r is Wait <==> behind == 0 && s.ports.senders > 0
            &&& (r matches Step::Done(Err(RecvError::Lagged { .. }))) <==> behind > s.capacity
            &&& r matches Step::Done(Err(RecvError::Lagged { skipped })) ==> skipped == behind
                - s.capacity && after.0.next_seq == rx.next_seq + skipped
            &&& (r matches Step::Done(Ok(_))) <==> 0 < behind <= s.capacity
            &&& r matches Step::Done(Ok(value)) ==> cloned(s.history[rx.next_seq as int], value)
                && after.0.next_seq == rx.next_seq + 1
            &&& (r matches Step::Done(Err(RecvError::Disconnected))) <==> behind == 0
                && s.ports.senders == 0
            &&& after.1.history == s.history
        },
{
}

/// As a world of a select, a channel shows its contents, with one stack of waiters.
pub proof fn law_channel_is_its_own_world<T>(
    chan: Chan<T>,
    s: BroadcastView<T>,
    waiters: Seq<SelectWaiter>,
)
    ensures
        chan.state() == chan@,
        chan.valid() == chan.wf(),
        <Chan<T> as Channels>::has_port(s, ()),
        <Chan<T> as Channels>::stack(s, ()) == s.ports.select_waiters,
        <Chan<T> as Channels>::with_stack(s, (), waiters) == (BroadcastView {
            ports: PortsView { select_waiters: waiters, ..s.ports },
            ..s
        }),
{
}

} // verus!
