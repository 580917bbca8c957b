//! Unbounded multi-producer, single-consumer channel.
//!
//! Any number of senders fill a queue without limit that one receiver empties. A send succeeds as
//! long as a receiver handle is left, and nudges every blocked receive that has not been claimed
//! otherwise. Receiver handles can be cloned, as a select needs, but all of them stand for the one
//! consumer.
use vstd::prelude::*;

use core::marker::PhantomData;

use crate::backlog::Backlog;
use crate::buffer::BufferView;
use crate::error::{RecvError, SendError, TryRecvError};
use crate::ports::{Port, Ports, PortsView, Step};
use crate::selectable::{ArmOpTrait, Channels, SelectableReceiver, SelectableSender};
use crate::waiter::{
    abort_select_waiters, pending, push_select_waiter, register_plain_recv_waiter,
    wake_all_unselected_recv_waiters, wake_select_one, woken_one, Board, BoardView,
    RecvWaiterGuard, SelectWaiter, UNSELECTED,
};

verus! {

/// The state that all handles of a channel share.
pub struct Chan<T> {
    queue: Backlog<T>,
    ports: Ports,
}

impl<T> View for Chan<T> {
    type V = BufferView<T>;

    closed spec fn view(&self) -> BufferView<T> {
        BufferView {
            queue: self.queue@,
            capacity: None,
            ports: self.ports@,
            send_select_waiters: Seq::empty(),
        }
    }
}

impl<T> Chan<T> {
    pub closed spec fn wf(&self) -> bool {
        self.queue.wf()
    }

    /// There is always room: a send fails only if no receiver is left. So no send arm ever waits.
    pub proof fn law_never_full(&self)
        ensures
            self@.has_room(),
            self@.accepts() == (self@.ports.receivers > 0),
            self@.send_select_waiters == Seq::<SelectWaiter>::empty(),
            forall|b: BoardView| #[trigger] self@.received_wakes(b) == b,
    {
    }

    /// Takes the oldest message, if there is one.
    fn pop(&mut self) -> (r: Option<T>)
        requires
            old(self).wf(),
        ensures
            final(self).wf(),
            r == (if old(self)@.queue.len() > 0 {
                Some(old(self)@.queue[0])
            } else {
                None
            }),
            final(self)@ == old(self)@.received(),
    {
        self.queue.pop()
    }
}

/// A sender handle.
pub struct Sender<T> {
    _message: PhantomData<T>,
}

/// A receiver handle.
pub struct Receiver<T> {
    _message: PhantomData<T>,
}

/// Creates a channel, with its first sender and receiver.
pub fn channel<T>() -> (r: (Chan<T>, Sender<T>, Receiver<T>))
    ensures
        r.0.wf(),
        r.0@ == BufferView::<T>::fresh(None),
{
    let chan = Chan { queue: Backlog::new(), ports: Ports::new() };
    (chan, Sender { _message: PhantomData }, Receiver { _message: PhantomData })
}

impl<T> Sender<T> {
    /// Another handle on the same channel.
    pub fn clone(&self, chan: &mut Chan<T>) -> (r: Sender<T>)
        requires
            old(chan).wf(),
            old(chan)@.ports.senders < usize::MAX,
        ensures
            final(chan).wf(),
            final(chan)@ == old(chan)@.sender_added(),
    {
        chan.ports.add_sender();
        Sender { _message: PhantomData }
    }

    /// Gives the handle up. With the last sender, everybody who waits to receive is woken.
    pub fn close(self, chan: &mut Chan<T>, board: &mut Board)
        requires
            old(chan).wf(),
            old(board).wf(),
            old(chan)@.ports.senders > 0,
        ensures
            final(chan).wf(),
            final(board).wf(),
            final(chan)@ == old(chan)@.sender_closed(),
            final(board)@ == old(chan)@.ports.sender_closed_wakes(old(board)@),
    {
        chan.ports.close_sender(board);
    }

    /// Sends `val`, or hands it back if all receivers are gone.
    pub fn send(&self, chan: &mut Chan<T>, board: &mut Board, val: T) -> (r: Result<
        (),
        SendError<T>,
    >)
        requires
            old(chan).wf(),
            old(board).wf(),
        ensures
            final(chan).wf(),
            final(board).wf(),
            r == (if old(chan)@.accepts() {
                Ok(())
            } else {
                Err(SendError(val))
            }),
            final(chan)@ == old(chan)@.sent(val),
            final(board)@ == old(chan)@.sent_wakes_every(old(board)@),
    {
        if chan.ports.receiver_count == 0 {
            return Err(SendError(val));
        }
        chan.queue.push(val);
        wake_all_unselected_recv_waiters(&chan.ports.recv_waiters, board);
        let _ = wake_select_one(&mut chan.ports.select_waiters, board);
        Ok(())
    }
}

impl<T> Receiver<T> {
    /// Another handle on the same channel.
    pub fn clone(&self, chan: &mut Chan<T>) -> (r: Receiver<T>)
        requires
            old(chan).wf(),
            old(chan)@.ports.receivers < usize::MAX,
        ensures
            final(chan).wf(),
            final(chan)@ == old(chan)@.receiver_added(),
    {
        chan.ports.add_receiver();
        Receiver { _message: PhantomData }
    }

    /// Gives the handle up.
    pub fn close(self, chan: &mut Chan<T>)
        requires
            old(chan).wf(),
            old(chan)@.ports.receivers > 0,
        ensures
            final(chan).wf(),
            final(chan)@ == old(chan)@.receiver_closed(),
    {
        let _ = chan.ports.close_receiver();
    }

    /// Receives without waiting.
    pub fn try_recv(&self, chan: &mut Chan<T>) -> (r: Result<T, TryRecvError>)
        requires
            old(chan).wf(),
        ensures
            final(chan).wf(),
            r == old(chan)@.try_recv_result(),
            final(chan)@ == old(chan)@.received(),
    {
        match chan.pop() {
            Some(msg) => Ok(msg),
            None => if chan.ports.sender_count == 0 {
                Err(TryRecvError::Disconnected)
            } else {
                Err(TryRecvError::Empty)
            },
        }
    }

    /// Begins a blocking receive: takes what is there, or registers `thread` as a waiter.
    ///
    /// After `Wait` comes [`Receiver::recheck`].
    pub fn recv(&self, chan: &mut Chan<T>, board: &mut Board, thread: u64) -> (r: Step<
        Result<T, RecvError>,
        RecvWaiterGuard,
    >)
        requires
            old(chan).wf(),
            old(board).wf(),
        ensures
            final(chan).wf(),
            final(board).wf(),
            old(chan)@.recv_step(old(board)@, thread, r, final(chan)@, final(board)@),
    {
        match self.try_recv(chan) {
            Ok(msg) => Step::Done(Ok(msg)),
            Err(TryRecvError::Empty) => Step::Wait(
                register_plain_recv_waiter(&mut chan.ports.recv_waiters, board, thread),
            ),
            Err(_) => Step::Done(Err(RecvError::Disconnected)),
        }
    }

    /// Looks again after registration, so that what happened in between is not missed.
    ///
    /// A receive whose cell was claimed begins anew. After `Wait` the thread parks, and once it is
    /// unparked comes [`Receiver::resume`].
    pub fn recheck(
        &self,
        chan: &mut Chan<T>,
        board: &mut Board,
        thread: u64,
        guard: RecvWaiterGuard,
    ) -> (r: Step<Result<T, RecvError>, RecvWaiterGuard>)
        requires
            old(chan).wf(),
            old(board).wf(),
        ensures
            final(chan).wf(),
            final(board).wf(),
            old(chan)@.renewing_recheck_step(
                old(board)@,
                thread,
                guard,
                r,
                final(chan)@,
                final(board)@,
            ),
    {
        match chan.pop() {
            Some(msg) => {
                guard.release(&mut chan.ports.recv_waiters, board);
                Step::Done(Ok(msg))
            },
            None => {
                let claimed: bool = match board.load(guard.marker()) {
                    Some(held) => held != UNSELECTED,
                    None => true,
                };
                if chan.ports.sender_count == 0 {
                    guard.release(&mut chan.ports.recv_waiters, board);
                    Step::Done(Err(RecvError::Disconnected))
                } else if claimed {
                    self.resume(chan, board, thread, guard)
                } else {
                    Step::Wait(guard)
                }
            },
        }
    }

    /// Goes on after the thread was unparked: undoes the registration and begins anew.
    pub fn resume(
        &self,
        chan: &mut Chan<T>,
        board: &mut Board,
        thread: u64,
        guard: RecvWaiterGuard,
    ) -> (r: Step<Result<T, RecvError>, RecvWaiterGuard>)
        requires
            old(chan).wf(),
            old(board).wf(),
        ensures
            final(chan).wf(),
            final(board).wf(),
            old(chan)@.released(guard.cell()).recv_step(
                old(board)@.closed(guard.cell()),
                thread,
                r,
                final(chan)@,
                final(board)@,
            ),
    {
        guard.release(&mut chan.ports.recv_waiters, board);
        self.recv(chan, board, thread)
    }

    /// Receives after this arm of a select was selected.
    ///
    /// Another handle may have taken the message in between; then this waits for the next one.
    pub fn complete_recv(&self, chan: &mut Chan<T>, board: &mut Board, thread: u64) -> (r: Step<
        Result<T, RecvError>,
        RecvWaiterGuard,
    >)
        requires
            old(chan).wf(),
            old(board).wf(),
        ensures
            final(chan).wf(),
            final(board).wf(),
            old(chan)@.recv_step(old(board)@, thread, r, final(chan)@, final(board)@),
    {
        self.recv(chan, board, thread)
    }
}

// ── Select ───────────────────────────────────────────────────────────────────
impl<T> Channels for Chan<T> {
    type State = BufferView<T>;

    type Port = Port;

    open spec fn state(&self) -> BufferView<T> {
        self@
    }

    open spec fn valid(&self) -> bool {
        self.wf()
    }

    open spec fn has_port(s: BufferView<T>, port: Port) -> bool {
        port == Port::Recv
    }

    open spec fn stack(s: BufferView<T>, port: Port) -> Seq<SelectWaiter> {
        s.stack(port)
    }

    open spec fn with_stack(s: BufferView<T>, port: Port, waiters: Seq<SelectWaiter>) -> BufferView<
        T,
    > {
        s.with_stack(port, waiters)
    }

    proof fn stacks_are_independent(
        s: BufferView<T>,
        port: Port,
        other: Port,
        waiters: Seq<SelectWaiter>,
    ) {
    }
}

impl<T> ArmOpTrait for Receiver<T> {
    type World = Chan<T>;

    open spec fn fits(&self, s: BufferView<T>) -> bool {
        true
    }

    open spec fn ready(&self, s: BufferView<T>) -> bool {
        s.recv_ready()
    }

    open spec fn looked(&self, s: BufferView<T>) -> Self {
        *self
    }

    open spec fn enrolled(&self, s: BufferView<T>) -> Self {
        *self
    }

    open spec fn enlists(&self, s: BufferView<T>) -> bool {
        true
    }

    open spec fn port(&self) -> Port {
        Port::Recv
    }

    proof fn readiness_is_stable(
        &self,
        s: BufferView<T>,
        port: Port,
        waiters: Seq<SelectWaiter>,
    ) {
    }

    fn is_ready(&mut self, world: &Chan<T>) -> (r: bool) {
        !world.queue.is_empty() || world.ports.sender_count == 0
    }

    fn register_select(&mut self, world: &mut Chan<T>, case_id: usize, selected: u64, thread: u64) {
        push_select_waiter(
            SelectWaiter::new(case_id, selected, thread),
            &mut world.ports.select_waiters,
        );
    }

    fn abort_select(&self, world: &mut Chan<T>, selected: u64) {
        abort_select_waiters(&mut world.ports.select_waiters, selected);
    }
}

impl<T> SelectableReceiver for Receiver<T> {
    type Output = T;

    type Pending = RecvWaiterGuard;

    open spec fn completes(
        before: (Self, BufferView<T>, BoardView),
        thread: u64,
        after: (Self, BufferView<T>, BoardView),
        r: Step<Result<T, RecvError>, RecvWaiterGuard>,
    ) -> bool {
        &&& after.0 == before.0
        &&& before.1.recv_step(before.2, thread, r, after.1, after.2)
    }

    proof fn law_ready_arm_completes(
        before: (Self, BufferView<T>, BoardView),
        thread: u64,
        after: (Self, BufferView<T>, BoardView),
        r: Step<Result<T, RecvError>, RecvWaiterGuard>,
    ) {
    }

    proof fn law_idle_arm_waits(
        before: (Self, BufferView<T>, BoardView),
        thread: u64,
        after: (Self, BufferView<T>, BoardView),
        r: Step<Result<T, RecvError>, RecvWaiterGuard>,
    ) {
    }

    fn complete(&mut self, world: &mut Chan<T>, board: &mut Board, thread: u64) -> (r: Step<
        Result<T, RecvError>,
        RecvWaiterGuard,
    >) {
        self.complete_recv(world, board, thread)
    }
}

impl<T> ArmOpTrait for Sender<T> {
    type World = Chan<T>;

    open spec fn fits(&self, s: BufferView<T>) -> bool {
        true
    }

    open spec fn ready(&self, s: BufferView<T>) -> bool {
        true
    }

    open spec fn looked(&self, s: BufferView<T>) -> Self {
        *self
    }

    open spec fn enrolled(&self, s: BufferView<T>) -> Self {
        *self
    }

    open spec fn enlists(&self, s: BufferView<T>) -> bool {
        false
    }

    open spec fn port(&self) -> Port {
        Port::Send
    }

    proof fn readiness_is_stable(
        &self,
        s: BufferView<T>,
        port: Port,
        waiters: Seq<SelectWaiter>,
    ) {
    }

    /// An unbounded channel always has room.
    fn is_ready(&mut self, world: &Chan<T>) -> (r: bool) {
        true
    }

    fn register_select(&mut self, world: &mut Chan<T>, case_id: usize, selected: u64, thread: u64) {
    }

    fn abort_select(&self, world: &mut Chan<T>, selected: u64) {
    }
}

impl<T: Send> SelectableSender for Sender<T> {
    type Input = T;

    type Pending = ();

    open spec fn sends(
        &self,
        before: (BufferView<T>, BoardView),
        value: T,
        thread: u64,
        after: (BufferView<T>, BoardView),
        r: Step<Result<(), SendError<T>>, ()>,
    ) -> bool {
        &&& r == Step::<Result<(), SendError<T>>, ()>::Done(
            if before.0.accepts() {
                Ok(())
            } else {
                Err(SendError(value))
            },
        )
        &&& after.0 == before.0.sent(value)
        &&& after.1 == before.0.sent_wakes_every(before.1)
    }

    proof fn law_send_arm_is_honest(
        &self,
        before: (BufferView<T>, BoardView),
        value: T,
        thread: u64,
        after: (BufferView<T>, BoardView),
        r: Step<Result<(), SendError<T>>, ()>,
    ) {
    }

    fn complete_send(&self, world: &mut Chan<T>, board: &mut Board, thread: u64, value: T) -> (r:
        Step<Result<(), SendError<T>>, ()>) {
        Step::Done(self.send(world, board, value))
    }
}

// ── What the arms do ─────────────────────────────────────────────────────────
/// A recv arm is ready exactly if a message is there or no sender is left, and its completion is a
/// receive: it gives the oldest message and takes it out of the queue; with none there and no
/// sender left it gives the disconnection and changes nothing; else it waits and takes nothing.
pub proof fn law_recv_arm_receives<T>(
    rx: Receiver<T>,
    s: BufferView<T>,
    b: BoardView,
    thread: u64,
    after: (Receiver<T>, BufferView<T>, BoardView),
    r: Step<Result<T, RecvError>, RecvWaiterGuard>,
)
    ensures
        rx.ready(s) <==> s.queue.len() > 0 || s.ports.senders == 0,
        rx.fits(s),
        rx.looked(s) == rx,
        rx.enrolled(s) == rx,
        rx.enlists(s),
        rx.port() == Port::Recv,
        Receiver::<T>::completes((rx, s, b), thread, after, r) ==> {
            &&& after.0 == rx
            &&& after.1.capacity == s.capacity
            &&& after.1.ports.senders == s.ports.senders
            &&& after.1.ports.receivers == s.ports.receivers
            &&& s.queue.len() > 0 ==> {
                &&& r == Step::<Result<T, RecvError>, RecvWaiterGuard>::Done(Ok(s.queue[0]))
                &&& after.1.queue == s.queue.drop_first()
                &&& after.1.ports == s.ports
                &&& after.2 == woken_one(pending(s.send_select_waiters), b)
            }
            &&& s.queue.len() == 0 && s.ports.senders == 0 ==> {
                &&& r == Step::<Result<T, RecvError>, RecvWaiterGuard>::Done(
                    Err(RecvError::Disconnected),
                )
                &&& after.1 == s
                &&& after.2 == b
            }
            &&& s.queue.len() == 0 && s.ports.senders > 0 ==> {
                &&& r is Wait
                &&& after.1.queue == s.queue
                &&& after.1.ports.recv_waiters.len() == s.ports.recv_waiters.len() + 1
                &&& after.1.ports.recv_waiters.last().thread == thread
                &&& after.2.unparked == b.unparked
            }
        },
{
}

/// A send arm is always ready, and its completion is a
/// send: with room and a receiver the message goes to the end of the queue, else it comes back and
/// nothing changes.
pub proof fn law_send_arm_sends<T: Send>(
    tx: Sender<T>,
    s: BufferView<T>,
    b: BoardView,
    value: T,
    thread: u64,
    after: (BufferView<T>, BoardView),
    r: Step<Result<(), SendError<T>>, ()>,
)
    ensures
        tx.ready(s),
        !tx.enlists(s),
        tx.fits(s),
        tx.looked(s) == tx,
        tx.enrolled(s) == tx,
        tx.port() == Port::Send,
        tx.sends((s, b), value, thread, after, r) ==> {
            &&& s.ports.receivers > 0 && (s.capacity is None || s.queue.len() < s.capacity->0)
                ==> {
                &&& r == Step::<Result<(), SendError<T>>, ()>::Done(Ok(()))
                &&& after.0.queue == s.queue.push(value)
                &&& after.0.ports.senders == s.ports.senders
                &&& after.0.ports.receivers == s.ports.receivers
                &&& after.1 == s.arrival_wakes_every(b)
            }
            &&& s.ports.receivers == 0 || (s.capacity is Some && s.queue.len() >= s.capacity->0)
                ==> {
                &&& r == Step::<Result<(), SendError<T>>, ()>::Done(Err(SendError(value)))
                &&& after == (s, b)
            }
        },
{
}

/// As a world of a select, a channel shows its contents, with a stack of waiters at the recv side
/// only.
pub proof fn law_channel_is_its_own_world<T>(
    chan: Chan<T>,
    s: BufferView<T>,
    waiters: Seq<SelectWaiter>,
)
    ensures
        chan.state() == chan@,
        chan.valid() == chan.wf(),
        <Chan<T> as Channels>::has_port(s, Port::Recv),
        !<Chan<T> as Channels>::has_port(s, Port::Send),
        <Chan<T> as Channels>::stack(s, Port::Recv) == s.ports.select_waiters,
        <Chan<T> as Channels>::stack(s, Port::Send) == s.send_select_waiters,
        <Chan<T> as Channels>::with_stack(s, Port::Recv, waiters) == (BufferView {
            ports: PortsView { select_waiters: waiters, ..s.ports },
            ..s
        }),
        <Chan<T> as Channels>::with_stack(s, Port::Send, waiters) == (BufferView {
            send_select_waiters: waiters,
            ..s
        }),
{
}

} // verus!
