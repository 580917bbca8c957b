//! The common model of the four queue channels.
//!
//! Bounded or not, with one receiver or many, a queue channel is a sequence of messages, its
//! handle counts and its waiters. The flavours differ in the capacity and in whom a send wakes.
use vstd::prelude::*;

use crate::error::{RecvError, TryRecvError};
use crate::ports::{Port, PortsView, Step};
use crate::waiter::{
    law_nudge_unparks_the_unselected, law_wake_all_unparks_everyone,
    law_wake_one_wakes_the_first_claimable, law_without_is_a_filter, nudged, pending,
    threads_of, unselected_threads, waits_unselected, woken_all, woken_one, BoardView, RecvWaiter,
    RecvWaiterGuard, SelectWaiter, UNSELECTED,
};

verus! {

/// The contents of a queue channel.
#[verifier::ext_equal]
pub struct BufferView<T> {
    /// The messages that were sent and not yet received, the oldest first.
    pub queue: Seq<T>,
    /// How many messages fit; `None` if any number does.
    pub capacity: Option<nat>,
    /// Recv-side waiters and handle counts.
    pub ports: PortsView,
    /// Send arms of waiting selects.
    pub send_select_waiters: Seq<SelectWaiter>,
}

impl<T> BufferView<T> {
    /// A channel without messages, with one sender and one receiver.
    pub open spec fn fresh(capacity: Option<nat>) -> Self {
        BufferView {
            queue: Seq::empty(),
            capacity,
            ports: PortsView::fresh(),
            send_select_waiters: Seq::empty(),
        }
    }

    pub open spec fn has_room(self) -> bool {
        self.capacity matches Some(c) ==> self.queue.len() < c
    }

    // ── Sending ──────────────────────────────────────────────────────────
    /// A send would succeed.
    pub open spec fn accepts(self) -> bool {
        self.ports.receivers > 0 && self.has_room()
    }

    /// After an attempt to send: a message that is accepted goes to the end of the queue, and the
    /// recv arms of waiting selects are taken off to be woken.
    pub open spec fn sent(self, val: T) -> Self {
        if self.accepts() {
            BufferView {
                queue: self.queue.push(val),
                ports: self.ports.select_drained(),
                ..self
            }
        } else {
            self
        }
    }

    /// Whom a message wakes that arrives in a channel with many consumers: the blocked receive that
    /// has waited longest, and one recv arm.
    pub open spec fn arrival_wakes_one(self, b: BoardView) -> BoardView {
        woken_one(pending(self.ports.select_waiters), woken_one(self.ports.recv_waiters, b))
    }

    /// Whom a message wakes that arrives in a channel with a single consumer: every blocked receive
    /// whose cell is unclaimed, and one recv arm.
    pub open spec fn arrival_wakes_every(self, b: BoardView) -> BoardView {
        woken_one(pending(self.ports.select_waiters), nudged(self.ports.recv_waiters, b))
    }

    /// Whom an attempt to send wakes in a channel with many consumers.
    pub open spec fn sent_wakes_one(self, b: BoardView) -> BoardView {
        if self.accepts() {
            self.arrival_wakes_one(b)
        } else {
            b
        }
    }

    /// Whom an attempt to send wakes in a channel with a single consumer.
    pub open spec fn sent_wakes_every(self, b: BoardView) -> BoardView {
        if self.accepts() {
            self.arrival_wakes_every(b)
        } else {
            b
        }
    }

    // ── Receiving ────────────────────────────────────────────────────────
    /// What a receive gives right now; `None` if it has to wait.
    pub open spec fn offer(self) -> Option<Result<T, RecvError>> {
        if self.queue.len() > 0 {
            Some(Ok(self.queue[0]))
        } else if self.ports.senders == 0 {
            Some(Err(RecvError::Disconnected))
        } else {
            None
        }
    }

    /// After a receive that does not wait: the oldest message is gone, and the send arms of waiting
    /// selects are taken off to be woken.
    pub open spec fn received(self) -> Self {
        if self.queue.len() > 0 {
            BufferView {
                queue: self.queue.drop_first(),
                send_select_waiters: Seq::empty(),
                ..self
            }
        } else {
            self
        }
    }

    /// Whom a receive that does not wait wakes: with a message taken, one send arm.
    pub open spec fn received_wakes(self, b: BoardView) -> BoardView {
        if self.queue.len() > 0 {
            woken_one(pending(self.send_select_waiters), b)
        } else {
            b
        }
    }

    /// What a non-blocking receive returns.
    pub open spec fn try_recv_result(self) -> Result<T, TryRecvError> {
        match self.offer() {
            Some(Ok(msg)) => Ok(msg),
            Some(Err(_)) => Err(TryRecvError::Disconnected),
            None => Err(TryRecvError::Empty),
        }
    }

    /// With one more thread blocked in a receive.
    pub open spec fn waiting(self, waiter: RecvWaiter) -> Self {
        BufferView { ports: self.ports.waiting(waiter), ..self }
    }

    /// Without the blocked receive of the given cell.
    pub open spec fn released(self, cell: u64) -> Self {
        BufferView { ports: self.ports.released(cell), ..self }
    }

    /// What the first step of a blocking receive may lead to: the offer, if there is one; else a
    /// wait on a fresh cell.
    pub open spec fn recv_step(
        self,
        b: BoardView,
        thread: u64,
        r: Step<Result<T, RecvError>, RecvWaiterGuard>,
        after: Self,
        b_after: BoardView,
    ) -> bool {
        match self.offer() {
            Some(out) => {
                &&& r == Step::<Result<T, RecvError>, RecvWaiterGuard>::Done(out)
                &&& after == self.received()
                &&& b_after == self.received_wakes(b)
            },
            None => {
                &&& r matches Step::Wait(guard)
                &&& !b.cells.contains_key(guard.cell())
                &&& after == self.waiting(
                    RecvWaiter { case_id: UNSELECTED, selected: guard.cell(), thread },
                )
                &&& b_after == b.opened(guard.cell())
            },
        }
    }

    /// What the second look of a registered receive leads to: the offer, if there is one by now,
    /// with the registration undone; else the thread is to park.
    pub open spec fn recheck_step(
        self,
        b: BoardView,
        guard: RecvWaiterGuard,
        r: Step<Result<T, RecvError>, RecvWaiterGuard>,
        after: Self,
        b_after: BoardView,
    ) -> bool {
        match self.offer() {
            Some(out) => {
                &&& r == Step::<Result<T, RecvError>, RecvWaiterGuard>::Done(out)
                &&& after == self.received().released(guard.cell())
                &&& b_after == self.received_wakes(b).closed(guard.cell())
            },
            None => {
                &&& r == Step::<Result<T, RecvError>, RecvWaiterGuard>::Wait(guard)
                &&& after == self
                &&& b_after == b
            },
        }
    }

    /// As [`BufferView::recheck_step`], but a registration whose cell was claimed is replaced: such
    /// a receive begins anew, since a send would not wake it.
    pub open spec fn renewing_recheck_step(
        self,
        b: BoardView,
        thread: u64,
        guard: RecvWaiterGuard,
        r: Step<Result<T, RecvError>, RecvWaiterGuard>,
        after: Self,
        b_after: BoardView,
    ) -> bool {
        if self.offer() is None && !b.unselected(guard.cell()) {
            self.released(guard.cell()).recv_step(
                b.closed(guard.cell()),
                thread,
                r,
                after,
                b_after,
            )
        } else {
            self.recheck_step(b, guard, r, after, b_after)
        }
    }

    // ── Handles ──────────────────────────────────────────────────────────
    pub open spec fn sender_added(self) -> Self {
        BufferView { ports: self.ports.sender_added(), ..self }
    }

    pub open spec fn sender_closed(self) -> Self {
        BufferView { ports: self.ports.sender_closed(), ..self }
    }

    pub open spec fn receiver_added(self) -> Self {
        BufferView { ports: self.ports.receiver_added(), ..self }
    }

    /// After a receiver handle went away; the last one takes all select waiters along.
    pub open spec fn receiver_closed(self) -> Self {
        BufferView {
            ports: self.ports.receiver_closed(),
            send_select_waiters: if self.ports.receivers == 1 {
                Seq::empty()
            } else {
                self.send_select_waiters
            },
            ..self
        }
    }

    /// Whom the going away of a receiver handle wakes: with the last one, every send arm.
    pub open spec fn receiver_closed_wakes(self, b: BoardView) -> BoardView {
        if self.ports.receivers == 1 {
            woken_all(pending(self.send_select_waiters), b)
        } else {
            b
        }
    }

    // ── Select ───────────────────────────────────────────────────────────
    /// The select waiters on one side.
    pub open spec fn stack(self, port: Port) -> Seq<SelectWaiter> {
        match port {
            Port::Recv => self.ports.select_waiters,
            Port::Send => self.send_select_waiters,
        }
    }

    /// With other select waiters on one side.
    pub open spec fn with_stack(self, port: Port, waiters: Seq<SelectWaiter>) -> Self {
        match port {
            Port::Recv => BufferView {
                ports: PortsView { select_waiters: waiters, ..self.ports },
                ..self
            },
            Port::Send => BufferView { send_select_waiters: waiters, ..self },
        }
    }

    /// A recv arm is ready: a receive would not wait.
    pub open spec fn recv_ready(self) -> bool {
        self.offer() is Some
    }

    /// A send arm is ready: there is room, or nobody is left to receive.
    pub open spec fn send_ready(self) -> bool {
        self.has_room() || self.ports.receivers == 0
    }
}

// ── Laws ─────────────────────────────────────────────────────────────────────
/// After sending all of `vals`, in order.
pub open spec fn sent_all<T>(s: BufferView<T>, vals: Seq<T>) -> BufferView<T>
    decreases vals.len(),
{
    if vals.len() == 0 {
        s
    } else {
        sent_all(s, vals.drop_last()).sent(vals.last())
    }
}

/// After `k` receives that do not wait.
pub open spec fn received_times<T>(s: BufferView<T>, k: nat) -> BufferView<T>
    decreases k,
{
    if k == 0 {
        s
    } else {
        received_times(s, (k - 1) as nat).received()
    }
}

/// Messages come out in the order in which they went in, each exactly once: after sending `vals`,
/// as far as they fit, the `k`-th receive gives the `k`-th of all messages, and those from `k` on
/// are still to come.
pub proof fn law_fifo<T>(s: BufferView<T>, vals: Seq<T>, k: nat)
    requires
        s.ports.receivers > 0,
        s.capacity matches Some(c) ==> s.queue.len() + vals.len() <= c,
        k <= s.queue.len() + vals.len(),
    ensures
        received_times(sent_all(s, vals), k).queue == (s.queue + vals).skip(k as int),
        k < s.queue.len() + vals.len() ==> received_times(sent_all(s, vals), k).offer() == Some(
            Ok::<T, RecvError>((s.queue + vals)[k as int]),
        ),
    decreases k,
{
    lemma_sent_all(s, vals);
    if k == 0 {
        assert((s.queue + vals).skip(0) =~= s.queue + vals);
    } else {
        law_fifo(s, vals, (k - 1) as nat);
        assert((s.queue + vals).skip(k - 1).drop_first() =~= (s.queue + vals).skip(k as int));
    }
}

proof fn lemma_sent_all<T>(s: BufferView<T>, vals: Seq<T>)
    requires
        s.ports.receivers > 0,
        s.capacity matches Some(c) ==> s.queue.len() + vals.len() <= c,
    ensures
        sent_all(s, vals).queue == s.queue + vals,
        sent_all(s, vals).capacity == s.capacity,
        sent_all(s, vals).ports.receivers == s.ports.receivers,
        sent_all(s, vals).ports.senders == s.ports.senders,
    decreases vals.len(),
{
    if vals.len() == 0 {
        assert(s.queue + vals =~= s.queue);
    } else {
        lemma_sent_all(s, vals.drop_last());
        assert(s.queue + vals =~= (s.queue + vals.drop_last()).push(vals.last()));
    }
}

/// Every message is received exactly once and in order, however sends and receives interleave: if
/// what was ever sent is what was ever received followed by the queue, this is still so after any
/// operation.
pub proof fn law_exactly_once<T>(
    s: BufferView<T>,
    sent: Seq<T>,
    received: Seq<T>,
    val: T,
    waiter: RecvWaiter,
    cell: u64,
    port: Port,
    waiters: Seq<SelectWaiter>,
)
    requires
        sent == received + s.queue,
    ensures
        s.accepts() ==> sent.push(val) == received + s.sent(val).queue,
        !s.accepts() ==> sent == received + s.sent(val).queue,
        s.queue.len() > 0 ==> sent == received.push(s.queue[0]) + s.received().queue,
        s.queue.len() == 0 ==> sent == received + s.received().queue,
        s.waiting(waiter).queue == s.queue,
        s.released(cell).queue == s.queue,
        s.sender_added().queue == s.queue,
        s.sender_closed().queue == s.queue,
        s.receiver_added().queue == s.queue,
        s.receiver_closed().queue == s.queue,
        s.with_stack(port, waiters).queue == s.queue,
{
    assert(s.accepts() ==> sent.push(val) =~= received + s.sent(val).queue);
    assert(s.queue.len() > 0 ==> sent =~= received.push(s.queue[0]) + s.received().queue);
}

/// A receiver is told of the disconnection only when nothing is left to receive and the last sender
/// is gone; senders going away take no message along.
pub proof fn law_drained_before_disconnected<T>(s: BufferView<T>)
    ensures
        s.offer() == Some(Err::<T, RecvError>(RecvError::Disconnected)) <==> s.queue.len() == 0
            && s.ports.senders == 0,
        s.sender_closed().queue == s.queue,
        s.queue.len() > 0 ==> s.sender_closed().offer() == s.offer(),
{
}

/// A receive waits exactly if there is no message and some sender is left, so a receiver never
/// sleeps while a message is there.
pub proof fn law_waits_only_when_empty_and_connected<T>(
    s: BufferView<T>,
    b: BoardView,
    thread: u64,
    r: Step<Result<T, RecvError>, RecvWaiterGuard>,
    after: BufferView<T>,
    b_after: BoardView,
)
    requires
        s.recv_step(b, thread, r, after, b_after),
    ensures
        r is Wait <==> s.queue.len() == 0 && s.ports.senders > 0,
{
}

/// A full channel has room again after one receive.
pub proof fn law_space_reopens<T>(s: BufferView<T>)
    requires
        s.capacity matches Some(c) && s.queue.len() == c && c > 0,
    ensures
        !s.has_room(),
        s.received().has_room(),
        s.ports.receivers > 0 ==> s.received().accepts(),
{
}

/// A channel of capacity 0 accepts nothing, whatever is done to it.
pub proof fn law_zero_capacity_is_always_full<T>(s: BufferView<T>, val: T)
    requires
        s.capacity == Some(0nat),
    ensures
        !s.accepts(),
        s.sent(val) == s,
        s.received().capacity == Some(0nat),
{
}

/// Once all receivers are gone, every send is refused and changes nothing.
pub proof fn law_no_receiver_no_send<T>(s: BufferView<T>, val: T)
    requires
        s.ports.receivers == 0,
    ensures
        !s.accepts(),
        s.sent(val) == s,
        s.send_ready(),
{
}

/// Cloning a handle and giving the clone up changes nothing and wakes nobody: the channel
/// disconnects only with the last handle.
pub proof fn law_clones_keep_connected<T>(s: BufferView<T>, b: BoardView)
    ensures
        s.ports.senders > 0 ==> s.sender_added().sender_closed() == s
            && s.sender_added().ports.sender_closed_wakes(b) == b,
        s.ports.receivers > 0 ==> s.receiver_added().receiver_closed() == s
            && s.receiver_added().receiver_closed_wakes(b) == b,
{
    assert(s.ports.senders > 0 ==> s.sender_added().sender_closed() =~= s);
    assert(s.ports.receivers > 0 ==> s.receiver_added().receiver_closed() =~= s);
}

/// When the last sender goes, every blocked receive and every waiting recv arm is unparked.
pub proof fn law_last_sender_wakes_all_receivers(p: PortsView, b: BoardView)
    requires
        p.senders == 1,
    ensures
        p.sender_closed_wakes(b).unparked == b.unparked + threads_of(p.recv_waiters) + threads_of(
            pending(p.select_waiters),
        ),
{
    let b1 = woken_all(p.recv_waiters, b);
    law_wake_all_unparks_everyone(p.recv_waiters, b);
    law_wake_all_unparks_everyone(pending(p.select_waiters), b1);
}

/// When the last receiver goes, every waiting send arm is unparked.
pub proof fn law_last_receiver_wakes_all_senders<T>(s: BufferView<T>, b: BoardView)
    requires
        s.ports.receivers == 1,
    ensures
        s.receiver_closed_wakes(b).unparked == b.unparked + threads_of(
            pending(s.send_select_waiters),
        ),
{
    law_wake_all_unparks_everyone(pending(s.send_select_waiters), b);
}

/// Taking a message out of a channel selects a waiting send arm if one can still be selected: the
/// topmost such arm gets its cell claimed and its thread unparked, and nothing else on the board
/// changes.
pub proof fn law_receive_wakes_a_send_arm<T>(s: BufferView<T>, b: BoardView, i: int)
    requires
        s.queue.len() > 0,
        0 <= i < pending(s.send_select_waiters).len(),
        b.unselected(pending(s.send_select_waiters)[i].selected),
        forall|j: int|
            0 <= j < i ==> !b.unselected((#[trigger] pending(s.send_select_waiters)[j]).selected),
    ensures
        ({
            let arm = pending(s.send_select_waiters)[i];
            let after = s.received_wakes(b);
            &&& after.cells == b.cells.insert(arm.selected, arm.case_id)
            &&& after.cells[arm.selected] == arm.case_id
            &&& after.unparked == b.unparked.push(arm.thread)
            &&& after.unparked.last() == arm.thread
            &&& after.turn == b.turn
        }),
{
    law_wake_one_wakes_the_first_claimable(pending(s.send_select_waiters), b);
}

/// A receiver woken for a message that somebody else took waits again; it is not told that the
/// channel is disconnected.
pub proof fn law_stolen_message_means_waiting_again<T>(
    s: BufferView<T>,
    cell: u64,
    b: BoardView,
    thread: u64,
    r: Step<Result<T, RecvError>, RecvWaiterGuard>,
    after: BufferView<T>,
    b_after: BoardView,
)
    requires
        s.queue.len() == 1,
        s.ports.senders > 0,
        s.received().released(cell).recv_step(b, thread, r, after, b_after),
    ensures
        r is Wait,
{
}

/// In a channel with many consumers, a message that arrives unparks exactly one blocked receive if
/// one can be woken, the one that has waited longest; and at most one recv arm besides.
pub proof fn law_arrival_wakes_one_receiver<T>(s: BufferView<T>, b: BoardView, i: int)
    requires
        0 <= i < s.ports.recv_waiters.len(),
        b.unselected(s.ports.recv_waiters[i].selected),
        forall|j: int| 0 <= j < i ==> !b.unselected((#[trigger] s.ports.recv_waiters[j]).selected),
    ensures
        b.unparked.push(s.ports.recv_waiters[i].thread).is_prefix_of(
            s.arrival_wakes_one(b).unparked,
        ),
        s.arrival_wakes_one(b).unparked.len() <= b.unparked.len() + 2,
{
    let b1 = woken_one(s.ports.recv_waiters, b);
    law_wake_one_wakes_the_first_claimable(s.ports.recv_waiters, b);
    assert(b.unparked.push(s.ports.recv_waiters[i].thread) =~= s.arrival_wakes_one(b).unparked.take(
        b.unparked.len() as int + 1,
    ));
}

/// In a channel with a single consumer, a message that arrives unparks every blocked receive whose
/// cell is unclaimed.
pub proof fn law_arrival_wakes_every_receiver<T>(s: BufferView<T>, b: BoardView, i: int)
    requires
        0 <= i < s.ports.recv_waiters.len(),
        b.unselected(s.ports.recv_waiters[i].selected),
    ensures
        s.arrival_wakes_every(b).unparked.contains(s.ports.recv_waiters[i].thread),
{
    let thread = s.ports.recv_waiters[i].thread;
    let threads = unselected_threads(s.ports.recv_waiters, b);
    law_nudge_unparks_the_unselected(s.ports.recv_waiters, b);
    assert(waits_unselected(s.ports.recv_waiters, b, thread));
    assert(threads.contains(thread));
    let k = choose|k: int| 0 <= k < threads.len() && threads[k] == thread;
    assert(s.arrival_wakes_every(b).unparked[b.unparked.len() + k] == thread);
}

/// A message that arrives selects a waiting arm if one can still be selected: the topmost such arm
/// gets its cell claimed and its thread unparked, after the blocked receives had their turn.
pub proof fn law_arrival_selects_an_arm<T>(s: BufferView<T>, b: BoardView, i: int)
    requires
        0 <= i < pending(s.ports.select_waiters).len(),
        b.unselected(pending(s.ports.select_waiters)[i].selected),
        forall|j: int|
            0 <= j < i ==> !b.unselected((#[trigger] pending(s.ports.select_waiters)[j]).selected),
        forall|k: int|
            0 <= k < s.ports.recv_waiters.len() ==> (#[trigger] s.ports.recv_waiters[k]).case_id
                == UNSELECTED,
    ensures
        ({
            let arm = pending(s.ports.select_waiters)[i];
            let one = s.arrival_wakes_one(b);
            let every = s.arrival_wakes_every(b);
            &&& one.cells[arm.selected] == arm.case_id && one.unparked.last() == arm.thread
            &&& every.cells[arm.selected] == arm.case_id && every.unparked.last() == arm.thread
        }),
{
    let arms = pending(s.ports.select_waiters);
    let b1 = woken_one(s.ports.recv_waiters, b);
    let b2 = nudged(s.ports.recv_waiters, b);
    assert(b1.cells =~= b.cells);
    law_wake_one_wakes_the_first_claimable(arms, b1);
    law_wake_one_wakes_the_first_claimable(arms, b2);
    assert(b1.unselected(arms[i].selected));
    assert(b2.unselected(arms[i].selected));
    assert forall|j: int| 0 <= j < i implies !b1.unselected((#[trigger] arms[j]).selected)
        && !b2.unselected(arms[j].selected) by {
        assert(!b.unselected(arms[j].selected));
    }
}

/// A send arm that is ready completes: the message is accepted, unless nobody is left to receive.
pub proof fn law_ready_send_arm_completes<T>(s: BufferView<T>)
    requires
        s.send_ready(),
    ensures
        s.accepts() || s.ports.receivers == 0,
{
}

// ── What the operations do ───────────────────────────────────────────────────
/// A send is accepted exactly if a receiver is left and the queue is shorter than the capacity, if
/// there is one. Then the message goes to the end of the queue and the recv arms are taken off
/// their stack; a send that is not accepted changes nothing. A send never touches the capacity, the
/// handle counts, the blocked receives or the send arms.
pub proof fn law_send_appends<T>(s: BufferView<T>, val: T)
    ensures
        s.accepts() <==> s.ports.receivers > 0 && (s.capacity is None || s.queue.len()
            < s.capacity->0),
        s.has_room() <==> s.capacity is None || s.queue.len() < s.capacity->0,
        s.accepts() ==> s.sent(val).queue == s.queue.push(val),
        s.accepts() ==> s.sent(val).ports.select_waiters.len() == 0,
        !s.accepts() ==> s.sent(val) == s,
        s.sent(val).capacity == s.capacity,
        s.sent(val).ports.senders == s.ports.senders,
        s.sent(val).ports.receivers == s.ports.receivers,
        s.sent(val).ports.recv_waiters == s.ports.recv_waiters,
        s.sent(val).send_select_waiters == s.send_select_waiters,
{
}

/// Whom a send wakes: with many consumers, the first blocked receive that can be claimed; with a
/// single one, every blocked receive whose cell is unclaimed; in both cases then the topmost recv
/// arm that can be claimed. A send that is not accepted wakes nobody.
pub proof fn law_send_wakes<T>(s: BufferView<T>, b: BoardView)
    ensures
        s.arrival_wakes_one(b) == woken_one(
            pending(s.ports.select_waiters),
            woken_one(s.ports.recv_waiters, b),
        ),
        s.arrival_wakes_every(b) == woken_one(
            pending(s.ports.select_waiters),
            nudged(s.ports.recv_waiters, b),
        ),
        s.ports.receivers > 0 && (s.capacity is None || s.queue.len() < s.capacity->0)
            ==> s.sent_wakes_one(b) == s.arrival_wakes_one(b) && s.sent_wakes_every(b)
            == s.arrival_wakes_every(b),
        s.ports.receivers == 0 || (s.capacity is Some && s.queue.len() >= s.capacity->0)
            ==> s.sent_wakes_one(b) == b && s.sent_wakes_every(b) == b,
        pending(s.ports.select_waiters).len() == 0 && s.ports.recv_waiters.len() == 0
            ==> s.arrival_wakes_one(b) == b && s.arrival_wakes_every(b) == b,
{
    if pending(s.ports.select_waiters).len() == 0 && s.ports.recv_waiters.len() == 0 {
        assert(nudged(s.ports.recv_waiters, b) =~= b);
    }
}

/// A receive that does not wait gives the oldest message and takes just that one out of the queue;
/// it finds the channel disconnected exactly if the queue is empty and no sender is left, and empty
/// exactly if the queue is empty and a sender is left. A message taken wakes the topmost send arm
/// that can be claimed and clears the send arms off their stack; nothing else changes.
pub proof fn law_receive_takes_the_oldest<T>(s: BufferView<T>, b: BoardView)
    ensures
        s.queue.len() > 0 ==> {
            &&& s.offer() == Some(Ok::<T, RecvError>(s.queue[0]))
            &&& s.try_recv_result() == Ok::<T, TryRecvError>(s.queue[0])
            &&& s.received().queue == s.queue.drop_first()
            &&& s.received().send_select_waiters.len() == 0
            &&& s.received_wakes(b) == woken_one(pending(s.send_select_waiters), b)
        },
        s.queue.len() == 0 ==> s.received() == s && s.received_wakes(b) == b,
        s.queue.len() == 0 && s.ports.senders == 0 ==> s.offer() == Some(
            Err::<T, RecvError>(RecvError::Disconnected),
        ) && s.try_recv_result() == Err::<T, TryRecvError>(TryRecvError::Disconnected),
        s.queue.len() == 0 && s.ports.senders > 0 ==> s.offer() is None && s.try_recv_result()
            == Err::<T, TryRecvError>(TryRecvError::Empty),
        s.received().capacity == s.capacity,
        s.received().ports == s.ports,
{
}

/// What a blocking receive comes to, in its first step and in its second look: with a message
/// there, the oldest one, taken out of the queue; with none and no sender left, the disconnection;
/// else a wait. The first step waits on a fresh cell, which it opens, with the thread at the end of
/// the list of blocked receives. The second look leaves everything as it is if it waits, and takes
/// the registration back if it does not.
pub proof fn law_blocking_receive_gives_the_oldest<T>(
    s: BufferView<T>,
    b: BoardView,
    thread: u64,
    guard: RecvWaiterGuard,
    r: Step<Result<T, RecvError>, RecvWaiterGuard>,
    after: BufferView<T>,
    b_after: BoardView,
)
    ensures
        s.recv_step(b, thread, r, after, b_after) ==> {
            &&& s.queue.len() > 0 ==> {
                &&& r == Step::<Result<T, RecvError>, RecvWaiterGuard>::Done(Ok(s.queue[0]))
                &&& after.queue == s.queue.drop_first()
                &&& after.ports == s.ports
                &&& after.capacity == s.capacity
                &&& after.send_select_waiters.len() == 0
                &&& b_after == woken_one(pending(s.send_select_waiters), b)
            }
            &&& s.queue.len() == 0 && s.ports.senders == 0 ==> {
                &&& r == Step::<Result<T, RecvError>, RecvWaiterGuard>::Done(
                    Err(RecvError::Disconnected),
                )
                &&& after == s
                &&& b_after == b
            }
            &&& s.queue.len() == 0 && s.ports.senders > 0 ==> {
                &&& r is Wait
                &&& !b.cells.contains_key(r->Wait_0.cell())
                &&& after.queue == s.queue
                &&& after.capacity == s.capacity
                &&& after.send_select_waiters == s.send_select_waiters
                &&& after.ports.select_waiters == s.ports.select_waiters
                &&& after.ports.senders == s.ports.senders
                &&& after.ports.receivers == s.ports.receivers
                &&& after.ports.recv_waiters == s.ports.recv_waiters.push(
                    RecvWaiter { case_id: usize::MAX, selected: r->Wait_0.cell(), thread },
                )
                &&& b_after.cells == b.cells.insert(r->Wait_0.cell(), usize::MAX)
                &&& b_after.unparked == b.unparked
                &&& b_after.turn == b.turn
            }
        },
        s.recheck_step(b, guard, r, after, b_after) ==> {
            &&& s.queue.len() > 0 ==> {
                &&& r == Step::<Result<T, RecvError>, RecvWaiterGuard>::Done(Ok(s.queue[0]))
                &&& after.queue == s.queue.drop_first()
                &&& b_after.cells == woken_one(pending(s.send_select_waiters), b).cells.remove(
                    guard.cell(),
                )
                &&& b_after.unparked == woken_one(pending(s.send_select_waiters), b).unparked
            }
            &&& s.queue.len() == 0 && s.ports.senders == 0 ==> {
                &&& r == Step::<Result<T, RecvError>, RecvWaiterGuard>::Done(
                    Err(RecvError::Disconnected),
                )
                &&& after.queue == s.queue
                &&& b_after.cells == b.cells.remove(guard.cell())
                &&& b_after.unparked == b.unparked
            }
            &&& s.queue.len() > 0 || s.ports.senders == 0 ==> {
                &&& after.ports.recv_waiters == s.ports.recv_waiters.filter(
                    |w: RecvWaiter| w.selected != guard.cell(),
                )
                &&& after.ports.select_waiters == s.ports.select_waiters
                &&& after.ports.senders == s.ports.senders
                &&& after.ports.receivers == s.ports.receivers
                &&& after.capacity == s.capacity
                &&& after.send_select_waiters == (if s.queue.len() > 0 {
                    Seq::empty()
                } else {
                    s.send_select_waiters
                })
                &&& b_after.turn == b.turn
            }
            &&& s.queue.len() == 0 && s.ports.senders > 0 ==> {
                &&& r == Step::<Result<T, RecvError>, RecvWaiterGuard>::Wait(guard)
                &&& after == s
                &&& b_after == b
            }
        },
        s.renewing_recheck_step(b, thread, guard, r, after, b_after) ==> {
            &&& s.queue.len() > 0 ==> {
                &&& r == Step::<Result<T, RecvError>, RecvWaiterGuard>::Done(Ok(s.queue[0]))
                &&& after.queue == s.queue.drop_first()
            }
            &&& s.queue.len() == 0 ==> after.queue == s.queue
            &&& s.queue.len() == 0 && s.ports.senders == 0 ==> r == Step::<
                Result<T, RecvError>,
                RecvWaiterGuard,
            >::Done(Err(RecvError::Disconnected))
            &&& s.queue.len() == 0 && s.ports.senders > 0 ==> {
                &&& r is Wait
                &&& after.ports.senders == s.ports.senders
                &&& after.ports.receivers == s.ports.receivers
                &&& b_after.cells.contains_key(r->Wait_0.cell())
                &&& b_after.cells[r->Wait_0.cell()] == usize::MAX
            }
            &&& s.queue.len() > 0 || s.ports.senders == 0 || (b.cells.contains_key(guard.cell())
                && b.cells[guard.cell()] == usize::MAX) ==> s.recheck_step(
                b,
                guard,
                r,
                after,
                b_after,
            )
            &&& s.queue.len() == 0 && s.ports.senders > 0 && !(b.cells.contains_key(guard.cell())
                && b.cells[guard.cell()] == usize::MAX) ==> {
                &&& !b.cells.remove(guard.cell()).contains_key(r->Wait_0.cell())
                &&& after.ports.recv_waiters == s.ports.recv_waiters.filter(
                    |w: RecvWaiter| w.selected != guard.cell(),
                ).push(RecvWaiter { case_id: usize::MAX, selected: r->Wait_0.cell(), thread })
                &&& after.ports.select_waiters == s.ports.select_waiters
                &&& after.send_select_waiters == s.send_select_waiters
                &&& after.capacity == s.capacity
                &&& b_after.cells == b.cells.remove(guard.cell()).insert(
                    r->Wait_0.cell(),
                    usize::MAX,
                )
                &&& b_after.unparked == b.unparked
                &&& b_after.turn == b.turn
            }
        },
{
    law_without_is_a_filter(s.ports.recv_waiters, guard.cell());
}

/// Handles coming and going leave the messages and the capacity alone. A sender changes only the
/// recv side; the last receiver also takes the send arms along, and wakes all of them that were not
/// aborted, while any other receiver wakes nobody.
pub proof fn law_handles_leave_messages<T>(s: BufferView<T>, b: BoardView)
    ensures
        s.sender_added() == (BufferView {
            queue: s.queue,
            capacity: s.capacity,
            ports: s.ports.sender_added(),
            send_select_waiters: s.send_select_waiters,
        }),
        s.sender_closed() == (BufferView {
            queue: s.queue,
            capacity: s.capacity,
            ports: s.ports.sender_closed(),
            send_select_waiters: s.send_select_waiters,
        }),
        s.receiver_added() == (BufferView {
            queue: s.queue,
            capacity: s.capacity,
            ports: s.ports.receiver_added(),
            send_select_waiters: s.send_select_waiters,
        }),
        s.receiver_closed().queue == s.queue,
        s.receiver_closed().capacity == s.capacity,
        s.receiver_closed().ports == s.ports.receiver_closed(),
        s.ports.receivers > 1 ==> s.receiver_closed().send_select_waiters == s.send_select_waiters
            && s.receiver_closed_wakes(b) == b,
        s.ports.receivers == 1 ==> s.receiver_closed().send_select_waiters.len() == 0
            && s.receiver_closed_wakes(b) == woken_all(pending(s.send_select_waiters), b),
{
}

/// A new channel is empty, has the capacity it was made with, one sender and one receiver, and
/// nobody waiting.
pub proof fn law_new_channel_is_empty<T>(capacity: Option<nat>)
    ensures
        BufferView::<T>::fresh(capacity) == (BufferView::<T> {
            queue: Seq::empty(),
            capacity,
            ports: PortsView {
                recv_waiters: Seq::empty(),
                select_waiters: Seq::empty(),
                senders: 1,
                receivers: 1,
            },
            send_select_waiters: Seq::empty(),
        }),
{
}

/// The waits of a blocked receive change only the list of blocked receives, and the two stacks of
/// select waiters are those of the two sides.
pub proof fn law_sides_are_separate<T>(
    s: BufferView<T>,
    waiter: RecvWaiter,
    cell: u64,
    waiters: Seq<SelectWaiter>,
)
    ensures
        s.waiting(waiter) == (BufferView {
            queue: s.queue,
            capacity: s.capacity,
            ports: s.ports.waiting(waiter),
            send_select_waiters: s.send_select_waiters,
        }),
        s.released(cell) == (BufferView {
            queue: s.queue,
            capacity: s.capacity,
            ports: s.ports.released(cell),
            send_select_waiters: s.send_select_waiters,
        }),
        s.stack(Port::Recv) == s.ports.select_waiters,
        s.stack(Port::Send) == s.send_select_waiters,
        s.with_stack(Port::Send, waiters) == (BufferView {
            queue: s.queue,
            capacity: s.capacity,
            ports: s.ports,
            send_select_waiters: waiters,
        }),
        s.with_stack(Port::Recv, waiters) == (BufferView {
            queue: s.queue,
            capacity: s.capacity,
            ports: PortsView {
                recv_waiters: s.ports.recv_waiters,
                select_waiters: waiters,
                senders: s.ports.senders,
                receivers: s.ports.receivers,
            },
            send_select_waiters: s.send_select_waiters,
        }),
        s.recv_ready() <==> s.queue.len() > 0 || s.ports.senders == 0,
        s.send_ready() <==> s.ports.receivers == 0 || s.capacity is None || s.queue.len()
            < s.capacity->0,
{
}

} // verus!
