//! Bounded multi-producer, single-consumer channel.
//!
//! Any number of senders fill a ring buffer of fixed capacity that one receiver empties. A send to
//! a full channel fails at once and hands the message back; it never waits. A send nudges every
//! blocked receive that has not been claimed otherwise. Receiver handles can be cloned, as a select
//! needs, but all of them stand for the one consumer.
//!
//! Two receivers without a sender handle are made here as well: [`after`] for one that yields a
//! single timestamp, and [`never`] for one that yields nothing at all. Timestamps and durations are
//! counted in nanoseconds.
use vstd::prelude::*;

use core::marker::PhantomData;

use crate::buffer::BufferView;
use crate::error::{RecvError, SendError, TryRecvError};
use crate::internals::BoundedRing;
use crate::ports::{Port, Ports, PortsView, Step};
use crate::selectable::{ArmOpTrait, Channels, SelectableReceiver, SelectableSender};
use crate::waiter::{
    abort_select_waiters, pending, push_select_waiter, register_plain_recv_waiter,
    wake_all_unselected_recv_waiters, wake_select_all, wake_select_one, woken_one, Board,
    BoardView, RecvWaiter, RecvWaiterGuard, SelectStack, SelectWaiter, UNSELECTED,
};

verus! {

/// The state that all handles of a channel share.
pub struct Chan<T> {
    ring: BoundedRing<T>,
    ports: Ports,
    /// Send arms of waiting selects; woken when room becomes available or the last receiver goes.
    send_select_waiters: SelectStack,
}

impl<T> View for Chan<T> {
    type V = BufferView<T>;

    closed spec fn view(&self) -> BufferView<T> {
        BufferView {
            queue: self.ring@,
            capacity: Some(self.ring.cap()),
            ports: self.ports@,
            send_select_waiters: self.send_select_waiters@,
        }
    }
}

impl<T> Chan<T> {
    pub closed spec fn wf(&self) -> bool {
        self.ring.wf()
    }

    /// The queue never exceeds the capacity.
    pub proof fn law_capacity_bound(&self)
        requires
            self.wf(),
        ensures
            self@.capacity matches Some(c) && self@.queue.len() <= c,
    {
        self.ring.law_capacity_bound();
    }

    /// Takes the oldest message and wakes a send arm, if there is a message.
    fn pop(&mut self, board: &mut Board) -> (r: Option<T>)
        requires
            old(self).wf(),
            old(board).wf(),
        ensures
            final(self).wf(),
            final(board).wf(),
            r == (if old(self)@.queue.len() > 0 {
                Some(old(self)@.queue[0])
            } else {
                None
            }),
            final(self)@ == old(self)@.received(),
            final(board)@ == old(self)@.received_wakes(old(board)@),
    {
        match self.ring.try_pop() {
            Some(msg) => {
                let _ = wake_select_one(&mut self.send_select_waiters, board);
                Some(msg)
            },
            None => None,
        }
    }
}

/// A sender handle.
pub struct Sender<T> {
    _message: PhantomData<T>,
}

/// A receiver handle.
pub struct Receiver<T> {
    _message: PhantomData<T>,
}

/// Creates a channel for up to `capacity` messages, with its first sender and receiver.
///
/// A channel of capacity 0 is always full: every send fails. For a synchronous handoff use
/// [`crate::rendezvous`].
pub fn channel<T>(capacity: usize) -> (r: (Chan<T>, Sender<T>, Receiver<T>))
    ensures
        r.0.wf(),
        r.0@ == BufferView::<T>::fresh(Some(capacity as nat)),
{
    let chan = Chan {
        ring: BoundedRing::new(capacity),
        ports: Ports::new(),
        send_select_waiters: SelectStack::new(),
    };
    (chan, Sender { _message: PhantomData }, Receiver { _message: PhantomData })
}

/// Where a timer made by [`after`] stands.
#[verifier::ext_equal]
pub struct TimerView {
    /// When the timestamp is due.
    pub due: nat,
}

impl TimerView {
    /// Set at time `start` to the given duration.
    pub open spec fn starting(start: u64, duration: u64) -> TimerView {
        TimerView { due: (start + duration) as nat }
    }

    /// How long it takes from `now` until the timestamp is due, as far as that can be counted.
    pub open spec fn delay(self, now: u64) -> u64 {
        if self.due <= now {
            0
        } else if self.due - now > u64::MAX {
            u64::MAX
        } else {
            (self.due - now) as u64
        }
    }

    /// The timer and the channel after firing at time `now`. Before the timestamp is due nothing
    /// happens; then it is delivered, unless the queue is full, and the timer is used up.
    pub open spec fn fired(self, s: BufferView<u64>, now: u64) -> (
        Option<TimerView>,
        BufferView<u64>,
    ) {
        if now < self.due {
            (Some(self), s)
        } else {
            (None, timestamped(s, now))
        }
    }

    /// Whom firing at time `now` wakes.
    pub open spec fn fired_wakes(self, s: BufferView<u64>, now: u64, b: BoardView) -> BoardView {
        if now < self.due {
            b
        } else {
            s.arrival_wakes_every(b)
        }
    }
}

/// After a timestamp was delivered: it is in the queue, unless that was full.
pub open spec fn timestamped(s: BufferView<u64>, now: u64) -> BufferView<u64> {
    BufferView {
        queue: if s.has_room() {
            s.queue.push(now)
        } else {
            s.queue
        },
        ports: s.ports.select_drained(),
        ..s
    }
}

/// What delivers the timestamp to a receiver made by [`after`].
pub struct Timer {
    due: u128,
}

impl View for Timer {
    type V = TimerView;

    closed spec fn view(&self) -> TimerView {
        TimerView { due: self.due as nat }
    }
}

/// Where a timer stands, if it is not used up.
pub open spec fn standing(timer: Option<Timer>) -> Option<TimerView> {
    match timer {
        Some(timer) => Some(timer@),
        None => None,
    }
}

impl Timer {
    /// How long to sleep at time `now` until the timestamp is due, or as long as can be counted.
    pub fn delay(&self, now: u64) -> (r: u64)
        ensures
            r == self@.delay(now),
    {
        if self.due <= now as u128 {
            return 0;
        }
        let delay: u128 = self.due - now as u128;
        if delay > u64::MAX as u128 {
            u64::MAX
        } else {
            delay as u64
        }
    }

    /// Fires at time `now`: delivers the timestamp `now` and wakes the receiver; the timer is then
    /// used up. Before the timestamp is due nothing happens.
    pub fn fire(self, chan: &mut Chan<u64>, board: &mut Board, now: u64) -> (r: Option<Timer>)
        requires
            old(chan).wf(),
            old(board).wf(),
        ensures
            final(chan).wf(),
            final(board).wf(),
            (standing(r), final(chan)@) == self@.fired(old(chan)@, now),
            final(board)@ == self@.fired_wakes(old(chan)@, now, old(board)@),
    {
        if self.delay(now) > 0 {
            return Some(self);
        }
        let _ = chan.ring.try_push(now);
        wake_all_unselected_recv_waiters(&chan.ports.recv_waiters, board);
        let _ = wake_select_one(&mut chan.ports.select_waiters, board);
        None
    }
}

/// A receiver that yields one timestamp, and the timer that delivers it once `duration` has passed
/// since `now`.
///
/// The timer counts as a sender that never goes away: the receiver is never disconnected.
pub fn after(now: u64, duration: u64) -> (r: (Chan<u64>, Receiver<u64>, Timer))
    ensures
        r.0.wf(),
        r.0@ == BufferView::<u64>::fresh(Some(1nat)),
        r.2@ == (TimerView { due: (now + duration) as nat }),
        r.2@ == TimerView::starting(now, duration),
{
    let (chan, _tx, rx) = channel(1);
    (chan, rx, Timer { due: now as u128 + duration as u128 })
}

/// A receiver that never yields a message and is never disconnected.
///
/// The channel has no room and counts a sender that no handle stands for.
pub fn never<T>() -> (r: (Chan<T>, Receiver<T>))
    ensures
        r.0.wf(),
        r.0@ == BufferView::<T>::fresh(Some(0nat)),
{
    let (chan, _tx, rx) = channel(0);
    (chan, rx)
}

impl<T> Sender<T> {
    /// Another handle on the same channel.
    pub fn clone(&self, chan: &mut Chan<T>) -> (r: Sender<T>)
        requires
            old(chan).wf(),
            old(chan)@.ports.senders < usize::MAX,
        ensures
            final(chan).wf(),
            final(chan)@ == old(chan)@.sender_added(),
    {
        chan.ports.add_sender();
        Sender { _message: PhantomData }
    }

    /// Gives the handle up. With the last sender, everybody who waits to receive is woken.
    pub fn close(self, chan: &mut Chan<T>, board: &mut Board)
        requires
            old(chan).wf(),
            old(board).wf(),
            old(chan)@.ports.senders > 0,
        ensures
            final(chan).wf(),
            final(board).wf(),
            final(chan)@ == old(chan)@.sender_closed(),
            final(board)@ == old(chan)@.ports.sender_closed_wakes(old(board)@),
    {
        chan.ports.close_sender(board);
    }

    /// Sends `val`, or hands it back if the buffer is full or all receivers are gone.
    pub fn send(&self, chan: &mut Chan<T>, board: &mut Board, val: T) -> (r: Result<
        (),
        SendError<T>,
    >)
        requires
            old(chan).wf(),
            old(board).wf(),
        ensures
            final(chan).wf(),
            final(board).wf(),
            r == (if old(chan)@.accepts() {
                Ok(())
            } else {
                Err(SendError(val))
            }),
            final(chan)@ == old(chan)@.sent(val),
            final(board)@ == old(chan)@.sent_wakes_every(old(board)@),
    {
        if chan.ports.receiver_count == 0 {
            return Err(SendError(val));
        }
        match chan.ring.try_push(val) {
            Ok(()) => {
                wake_all_unselected_recv_waiters(&chan.ports.recv_waiters, board);
                let _ = wake_select_one(&mut chan.ports.select_waiters, board);
                Ok(())
            },
            Err(val) => Err(SendError(val)),
        }
    }
}

impl<T> Receiver<T> {
    /// Another handle on the same channel.
    pub fn clone(&self, chan: &mut Chan<T>) -> (r: Receiver<T>)
        requires
            old(chan).wf(),
            old(chan)@.ports.receivers < usize::MAX,
        ensures
            final(chan).wf(),
            final(chan)@ == old(chan)@.receiver_added(),
    {
        chan.ports.add_receiver();
        Receiver { _message: PhantomData }
    }

    /// Gives the handle up. With the last receiver, every waiting send arm is woken.
    pub fn close(self, chan: &mut Chan<T>, board: &mut Board)
        requires
            old(chan).wf(),
            old(board).wf(),
            old(chan)@.ports.receivers > 0,
        ensures
            final(chan).wf(),
            final(board).wf(),
            final(chan)@ == old(chan)@.receiver_closed(),
            final(board)@ == old(chan)@.receiver_closed_wakes(old(board)@),
    {
        if chan.ports.close_receiver() {
            wake_select_all(&mut chan.send_select_waiters, board);
        }
    }

    /// Receives without waiting.
    pub fn try_recv(&self, chan: &mut Chan<T>, board: &mut Board) -> (r: Result<T, TryRecvError>)
        requires
            old(chan).wf(),
            old(board).wf(),
        ensures
            final(chan).wf(),
            final(board).wf(),
            r == old(chan)@.try_recv_result(),
            final(chan)@ == old(chan)@.received(),
            final(board)@ == old(chan)@.received_wakes(old(board)@),
    {
        match chan.pop(board) {
            Some(msg) => Ok(msg),
            None => if chan.ports.sender_count == 0 {
                Err(TryRecvError::Disconnected)
            } else {
                Err(TryRecvError::Empty)
            },
        }
    }

    /// Begins a blocking receive: takes what is there, or registers `thread` as a waiter.
    ///
    /// After `Wait` comes [`Receiver::recheck`].
    pub fn recv(&self, chan: &mut Chan<T>, board: &mut Board, thread: u64) -> (r: Step<
        Result<T, RecvError>,
        RecvWaiterGuard,
    >)
        requires
            old(chan).wf(),
            old(board).wf(),
        ensures
            final(chan).wf(),
            final(board).wf(),
            old(chan)@.recv_step(old(board)@, thread, r, final(chan)@, final(board)@),
    {
        match self.try_recv(chan, board) {
            Ok(msg) => Step::Done(Ok(msg)),
            Err(TryRecvError::Empty) => Step::Wait(
                register_plain_recv_waiter(&mut chan.ports.recv_waiters, board, thread),
            ),
            Err(_) => Step::Done(Err(RecvError::Disconnected)),
        }
    }

    /// Looks again after registration, so that what happened in between is not missed.
    ///
    /// A receive whose cell was claimed begins anew. After `Wait` the thread parks, and once it is
    /// unparked comes [`Receiver::resume`].
    pub fn recheck(
        &self,
        chan: &mut Chan<T>,
        board: &mut Board,
        thread: u64,
        guard: RecvWaiterGuard,
    ) -> (r: Step<Result<T, RecvError>, RecvWaiterGuard>)
        requires
            old(chan).wf(),
            old(board).wf(),
        ensures
            final(chan).wf(),
            final(board).wf(),
            old(chan)@.renewing_recheck_step(
                old(board)@,
                thread,
                guard,
                r,
                final(chan)@,
                final(board)@,
            ),
    {
        match chan.pop(board) {
            Some(msg) => {
                guard.release(&mut chan.ports.recv_waiters, board);
                Step::Done(Ok(msg))
            },
            None => {
                let claimed: bool = match board.load(guard.marker()) {
                    Some(held) => held != UNSELECTED,
                    None => true,
                };
                if chan.ports.sender_count == 0 {
                    guard.release(&mut chan.ports.recv_waiters, board);
                    Step::Done(Err(RecvError::Disconnected))
                } else if claimed {
                    self.resume(chan, board, thread, guard)
                } else {
                    Step::Wait(guard)
                }
            },
        }
    }

    /// Goes on after the thread was unparked: undoes the registration and begins anew.
    pub fn resume(
        &self,
        chan: &mut Chan<T>,
        board: &mut Board,
        thread: u64,
        guard: RecvWaiterGuard,
    ) -> (r: Step<Result<T, RecvError>, RecvWaiterGuard>)
        requires
            old(chan).wf(),
            old(board).wf(),
        ensures
            final(chan).wf(),
            final(board).wf(),
            old(chan)@.released(guard.cell()).recv_step(
                old(board)@.closed(guard.cell()),
                thread,
                r,
                final(chan)@,
                final(board)@,
            ),
    {
        guard.release(&mut chan.ports.recv_waiters, board);
        self.recv(chan, board, thread)
    }

    /// Receives after this arm of a select was selected.
    ///
    /// Another handle may have taken the message in between; then this waits for the next one.
    pub fn complete_recv(&self, chan: &mut Chan<T>, board: &mut Board, thread: u64) -> (r: Step<
        Result<T, RecvError>,
        RecvWaiterGuard,
    >)
        requires
            old(chan).wf(),
            old(board).wf(),
        ensures
            final(chan).wf(),
            final(board).wf(),
            old(chan)@.recv_step(old(board)@, thread, r, final(chan)@, final(board)@),
    {
        self.recv(chan, board, thread)
    }
}

// ── Select ───────────────────────────────────────────────────────────────────
impl<T> Channels for Chan<T> {
    type State = BufferView<T>;

    type Port = Port;

    open spec fn state(&self) -> BufferView<T> {
        self@
    }

    open spec fn valid(&self) -> bool {
        self.wf()
    }

    open spec fn has_port(s: BufferView<T>, port: Port) -> bool {
        true
    }

    open spec fn stack(s: BufferView<T>, port: Port) -> Seq<SelectWaiter> {
        s.stack(port)
    }

    open spec fn with_stack(s: BufferView<T>, port: Port, waiters: Seq<SelectWaiter>) -> BufferView<
        T,
    > {
        s.with_stack(port, waiters)
    }

    proof fn stacks_are_independent(
        s: BufferView<T>,
        port: Port,
        other: Port,
        waiters: Seq<SelectWaiter>,
    ) {
    }
}

impl<T> ArmOpTrait for Receiver<T> {
    type World = Chan<T>;

    open spec fn fits(&self, s: BufferView<T>) -> bool {
        true
    }

    open spec fn ready(&self, s: BufferView<T>) -> bool {
        s.recv_ready()
    }

    open spec fn looked(&self, s: BufferView<T>) -> Self {
        *self
    }

    open spec fn enrolled(&self, s: BufferView<T>) -> Self {
        *self
    }

    open spec fn enlists(&self, s: BufferView<T>) -> bool {
        true
    }

    open spec fn port(&self) -> Port {
        Port::Recv
    }

    proof fn readiness_is_stable(
        &self,
        s: BufferView<T>,
        port: Port,
        waiters: Seq<SelectWaiter>,
    ) {
    }

    fn is_ready(&mut self, world: &Chan<T>) -> (r: bool) {
        !world.ring.is_empty() || world.ports.sender_count == 0
    }

    fn register_select(&mut self, world: &mut Chan<T>, case_id: usize, selected: u64, thread: u64) {
        push_select_waiter(
            SelectWaiter::new(case_id, selected, thread),
            &mut world.ports.select_waiters,
        );
    }

    fn abort_select(&self, world: &mut Chan<T>, selected: u64) {
        abort_select_waiters(&mut world.ports.select_waiters, selected);
    }
}

impl<T> SelectableReceiver for Receiver<T> {
    type Output = T;

    type Pending = RecvWaiterGuard;

    open spec fn completes(
        before: (Self, BufferView<T>, BoardView),
        thread: u64,
        after: (Self, BufferView<T>, BoardView),
        r: Step<Result<T, RecvError>, RecvWaiterGuard>,
    ) -> bool {
        &&& after.0 == before.0
        &&& before.1.recv_step(before.2, thread, r, after.1, after.2)
    }

    proof fn law_ready_arm_completes(
        before: (Self, BufferView<T>, BoardView),
        thread: u64,
        after: (Self, BufferView<T>, BoardView),
        r: Step<Result<T, RecvError>, RecvWaiterGuard>,
    ) {
    }

    proof fn law_idle_arm_waits(
        before: (Self, BufferView<T>, BoardView),
        thread: u64,
        after: (Self, BufferView<T>, BoardView),
        r: Step<Result<T, RecvError>, RecvWaiterGuard>,
    ) {
    }

    fn complete(&mut self, world: &mut Chan<T>, board: &mut Board, thread: u64) -> (r: Step<
        Result<T, RecvError>,
        RecvWaiterGuard,
    >) {
        self.complete_recv(world, board, thread)
    }
}

impl<T> ArmOpTrait for Sender<T> {
    type World = Chan<T>;

    open spec fn fits(&self, s: BufferView<T>) -> bool {
        true
    }

    open spec fn ready(&self, s: BufferView<T>) -> bool {
        s.send_ready()
    }

    open spec fn looked(&self, s: BufferView<T>) -> Self {
        *self
    }

    open spec fn enrolled(&self, s: BufferView<T>) -> Self {
        *self
    }

    open spec fn enlists(&self, s: BufferView<T>) -> bool {
        true
    }

    open spec fn port(&self) -> Port {
        Port::Send
    }

    proof fn readiness_is_stable(
        &self,
        s: BufferView<T>,
        port: Port,
        waiters: Seq<SelectWaiter>,
    ) {
    }

    fn is_ready(&mut self, world: &Chan<T>) -> (r: bool) {
        proof {
            world.ring.law_capacity_bound();
        }
        !world.ring.is_full() || world.ports.receiver_count == 0
    }

    fn register_select(&mut self, world: &mut Chan<T>, case_id: usize, selected: u64, thread: u64) {
        push_select_waiter(
            SelectWaiter::new(case_id, selected, thread),
            &mut world.send_select_waiters,
        );
    }

    fn abort_select(&self, world: &mut Chan<T>, selected: u64) {
        abort_select_waiters(&mut world.send_select_waiters, selected);
    }
}

impl<T: Send> SelectableSender for Sender<T> {
    type Input = T;

    type Pending = ();

    open spec fn sends(
        &self,
        before: (BufferView<T>, BoardView),
        value: T,
        thread: u64,
        after: (BufferView<T>, BoardView),
        r: Step<Result<(), SendError<T>>, ()>,
    ) -> bool {
        &&& r == Step::<Result<(), SendError<T>>, ()>::Done(
            if before.0.accepts() {
                Ok(())
            } else {
                Err(SendError(value))
            },
        )
        &&& after.0 == before.0.sent(value)
        &&& after.1 == before.0.sent_wakes_every(before.1)
    }

    proof fn law_send_arm_is_honest(
        &self,
        before: (BufferView<T>, BoardView),
        value: T,
        thread: u64,
        after: (BufferView<T>, BoardView),
        r: Step<Result<(), SendError<T>>, ()>,
    ) {
    }

    fn complete_send(&self, world: &mut Chan<T>, board: &mut Board, thread: u64, value: T) -> (r:
        Step<Result<(), SendError<T>>, ()>) {
        Step::Done(self.send(world, board, value))
    }
}

// ── Laws ─────────────────────────────────────────────────────────────────────
/// What can happen to a timer and its channel.
pub enum TimerEvent {
    /// The timer is fired at this time.
    Fire(u64),
    /// The timestamp, if it is there, is read.
    Read,
    /// Something else happens to the channel, which then has these contents: receivers come and go,
    /// threads and arms wait or are woken.
    Other(BufferView<u64>),
}

/// A timer in the course of time.
pub struct TimerRun {
    /// The timer, if it is not used up.
    pub timer: Option<TimerView>,
    pub chan: BufferView<u64>,
    /// What was read.
    pub read: Seq<u64>,
}

impl TimerRun {
    /// After one more event.
    pub open spec fn step(self, event: TimerEvent) -> TimerRun {
        match event {
            TimerEvent::Fire(now) => match self.timer {
                Some(timer) => TimerRun {
                    timer: timer.fired(self.chan, now).0,
                    chan: timer.fired(self.chan, now).1,
                    ..self
                },
                None => self,
            },
            TimerEvent::Read => if self.chan.queue.len() > 0 {
                TimerRun {
                    chan: self.chan.received(),
                    read: self.read.push(self.chan.queue[0]),
                    ..self
                }
            } else {
                self
            },
            TimerEvent::Other(chan) => TimerRun { chan, ..self },
        }
    }
}

/// A timer made at `start`, after the events.
pub open spec fn run_of(start: u64, duration: u64, events: Seq<TimerEvent>) -> TimerRun
    decreases events.len(),
{
    if events.len() == 0 {
        TimerRun {
            timer: Some(TimerView::starting(start, duration)),
            chan: BufferView::fresh(Some(1nat)),
            read: Seq::empty(),
        }
    } else {
        run_of(start, duration, events.drop_last()).step(events.last())
    }
}

/// The events can have happened: whatever else happens to the channel, only firing and reading
/// change its queue.
pub open spec fn possible(start: u64, duration: u64, events: Seq<TimerEvent>) -> bool {
    forall|i: int|
        0 <= i < events.len() ==> (#[trigger] events[i] matches TimerEvent::Other(chan)
            ==> chan.queue == run_of(start, duration, events.take(i)).chan.queue)
}

/// A timer yields at most one timestamp, none while it is not used up, and none earlier than
/// `duration` after the timer was made.
pub proof fn law_after_fires_once_and_on_time(start: u64, duration: u64, events: Seq<TimerEvent>)
    requires
        possible(start, duration, events),
    ensures
        ({
            let run = run_of(start, duration, events);
            let delivered = run.read + run.chan.queue;
            &&& run.timer matches Some(timer) ==> timer.due == start + duration && delivered.len()
                == 0
            &&& delivered.len() <= 1
            &&& forall|i: int|
                0 <= i < delivered.len() ==> #[trigger] delivered[i] >= start + duration
            &&& forall|i: int|
                0 <= i < run.read.len() ==> #[trigger] run.read[i] >= start + duration
        }),
    decreases events.len(),
{
    let run = run_of(start, duration, events);
    let delivered = run.read + run.chan.queue;
    if events.len() > 0 {
        let n = events.len() as int;
        let init = events.drop_last();
        assert forall|i: int| 0 <= i < init.len() implies (
        #[trigger] init[i] matches TimerEvent::Other(chan) ==> chan.queue == run_of(
            start,
            duration,
            init.take(i),
        ).chan.queue) by {
            assert(events[i] == init[i]);
            assert(events.take(i) =~= init.take(i));
        }
        law_after_fires_once_and_on_time(start, duration, init);
        assert(events.take(n - 1) =~= init);
        assert(events[n - 1] == events.last());
        let before = run_of(start, duration, init);
        let earlier = before.read + before.chan.queue;
        match events.last() {
            TimerEvent::Fire(now) => {
                if before.timer is Some && now >= before.timer->0.due && before.chan.has_room() {
                    assert(delivered =~= earlier.push(now));
                } else {
                    assert(delivered =~= earlier);
                }
            },
            TimerEvent::Read => {
                assert(delivered =~= earlier);
            },
            TimerEvent::Other(chan) => {
                assert(delivered =~= earlier);
            },
        }
    }
    assert forall|i: int| 0 <= i < run.read.len() implies #[trigger] run.read[i] >= start
        + duration by {
        assert(delivered[i] == run.read[i]);
    }
}

/// A timer fires once its duration has passed since it was set, and not before.
pub proof fn law_after_waits_its_duration(
    start: u64,
    duration: u64,
    s: BufferView<u64>,
    now: u64,
)
    ensures
        TimerView::starting(start, duration).fired(s, now).0 is None <==> now - start >= duration,
{
}

/// A timer's receiver has nothing before the timer fires, and exactly the timestamp after that; and
/// whoever sleeps for the delay finds the timestamp due, unless that is more than can be counted.
pub proof fn law_after_delivers_when_due(timer: TimerView, asked: u64, now: u64)
    requires
        timer.delay(asked) < u64::MAX,
        now >= asked + timer.delay(asked),
    ensures
        BufferView::<u64>::fresh(Some(1nat)).offer() is None,
        timer.fired(BufferView::fresh(Some(1nat)), now).0 is None,
        timer.fired(BufferView::fresh(Some(1nat)), now).1.offer() == Some(
            Ok::<u64, RecvError>(now),
        ),
        timer.fired(BufferView::fresh(Some(1nat)), now).1.received().offer() is None,
{
}

/// What [`never`] makes has nothing to offer, and stays so whatever its receivers do and whatever
/// is sent to it.
pub proof fn law_never_offers_nothing<T>(s: BufferView<T>, val: T, waiter: RecvWaiter, cell: u64)
    requires
        s.capacity == Some(0nat),
        s.queue.len() == 0,
        s.ports.senders > 0,
    ensures
        s.offer() is None,
        s.sent(val).offer() is None,
        s.received().offer() is None,
        s.waiting(waiter).offer() is None,
        s.released(cell).offer() is None,
        s.receiver_added().offer() is None,
        s.receiver_closed().offer() is None,
{
}

// ── What the arms do ─────────────────────────────────────────────────────────
/// A recv arm is ready exactly if a message is there or no sender is left, and its completion is a
/// receive: it gives the oldest message and takes it out of the queue; with none there and no
/// sender left it gives the disconnection and changes nothing; else it waits and takes nothing.
pub proof fn law_recv_arm_receives<T>(
    rx: Receiver<T>,
    s: BufferView<T>,
    b: BoardView,
    thread: u64,
    after: (Receiver<T>, BufferView<T>, BoardView),
    r: Step<Result<T, RecvError>, RecvWaiterGuard>,
)
    ensures
        rx.ready(s) <==> s.queue.len() > 0 || s.ports.senders == 0,
        rx.fits(s),
        rx.looked(s) == rx,
        rx.enrolled(s) == rx,
        rx.enlists(s),
        rx.port() == Port::Recv,
        Receiver::<T>::completes((rx, s, b), thread, after, r) ==> {
            &&& after.0 == rx
            &&& after.1.capacity == s.capacity
            &&& after.1.ports.senders == s.ports.senders
            &&& after.1.ports.receivers == s.ports.receivers
            &&& s.queue.len() > 0 ==> {
                &&& r == Step::<Result<T, RecvError>, RecvWaiterGuard>::Done(Ok(s.queue[0]))
                &&& after.1.queue == s.queue.drop_first()
                &&& after.1.ports == s.ports
                &&& after.2 == woken_one(pending(s.send_select_waiters), b)
            }
            &&& s.queue.len() == 0 && s.ports.senders == 0 ==> {
                &&& r == Step::<Result<T, RecvError>, RecvWaiterGuard>::Done(
                    Err(RecvError::Disconnected),
                )
                &&& after.1 == s
                &&& after.2 == b
            }
            &&& s.queue.len() == 0 && s.ports.senders > 0 ==> {
                &&& r is Wait
                &&& after.1.queue == s.queue
                &&& after.1.ports.recv_waiters.len() == s.ports.recv_waiters.len() + 1
                &&& after.1.ports.recv_waiters.last().thread == thread
                &&& after.2.unparked == b.unparked
            }
        },
{
}

/// A send arm is ready exactly if there is room or no receiver is left, and its completion is a
/// send: with room and a receiver the message goes to the end of the queue, else it comes back and
/// nothing changes.
pub proof fn law_send_arm_sends<T: Send>(
    tx: Sender<T>,
    s: BufferView<T>,
    b: BoardView,
    value: T,
    thread: u64,
    after: (BufferView<T>, BoardView),
    r: Step<Result<(), SendError<T>>, ()>,
)
    ensures
        tx.ready(s) <==> s.ports.receivers == 0 || s.capacity is None || s.queue.len()
            < s.capacity->0,
        tx.enlists(s),
        tx.fits(s),
        tx.looked(s) == tx,
        tx.enrolled(s) == tx,
        tx.port() == Port::Send,
        tx.sends((s, b), value, thread, after, r) ==> {
            &&& s.ports.receivers > 0 && (s.capacity is None || s.queue.len() < s.capacity->0)
                ==> {
                &&& r == Step::<Result<(), SendError<T>>, ()>::Done(Ok(()))
                &&& after.0.queue == s.queue.push(value)
                &&& after.0.ports.senders == s.ports.senders
                &&& after.0.ports.receivers == s.ports.receivers
                &&& after.1 == s.arrival_wakes_every(b)
            }
            &&& s.ports.receivers == 0 || (s.capacity is Some && s.queue.len() >= s.capacity->0)
                ==> {
                &&& r == Step::<Result<(), SendError<T>>, ()>::Done(Err(SendError(value)))
                &&& after == (s, b)
            }
        },
{
}

/// As a world of a select, a channel shows its contents, with a stack of waiters at each side.
pub proof fn law_channel_is_its_own_world<T>(
    chan: Chan<T>,
    s: BufferView<T>,
    waiters: Seq<SelectWaiter>,
)
    ensures
        chan.state() == chan@,
        chan.valid() == chan.wf(),
        <Chan<T> as Channels>::has_port(s, Port::Recv),
        <Chan<T> as Channels>::has_port(s, Port::Send),
        <Chan<T> as Channels>::stack(s, Port::Recv) == s.ports.select_waiters,
        <Chan<T> as Channels>::stack(s, Port::Send) == s.send_select_waiters,
        <Chan<T> as Channels>::with_stack(s, Port::Recv, waiters) == (BufferView {
            ports: PortsView { select_waiters: waiters, ..s.ports },
            ..s
        }),
        <Chan<T> as Channels>::with_stack(s, Port::Send, waiters) == (BufferView {
            send_select_waiters: waiters,
            ..s
        }),
{
}

/// What firing a timer comes to. Before the timestamp is due nothing changes. Otherwise the time of
/// firing goes to the end of the queue if there is room, everybody is woken as by a message, and
/// the timer is used up. The delay reaches exactly to the due time, as far as that can be counted.
pub proof fn law_fire_delivers_its_time(
    timer: TimerView,
    s: BufferView<u64>,
    b: BoardView,
    now: u64,
)
    ensures
        now < timer.due ==> {
            &&& timer.fired(s, now) == (Some(timer), s)
            &&& timer.fired_wakes(s, now, b) == b
            &&& timer.due - now <= u64::MAX ==> now + timer.delay(now) == timer.due
            &&& timer.due - now > u64::MAX ==> timer.delay(now) == u64::MAX
        },
        now >= timer.due ==> {
            let (next, after) = timer.fired(s, now);
            let room = s.capacity is None || s.queue.len() < s.capacity->0;
            &&& timer.delay(now) == 0
            &&& next is None
            &&& room ==> after.queue == s.queue.push(now)
            &&& !room ==> after.queue == s.queue
            &&& after.capacity == s.capacity
            &&& after.ports.senders == s.ports.senders
            &&& after.ports.receivers == s.ports.receivers
            &&& after.ports.recv_waiters == s.ports.recv_waiters
            &&& after.ports.select_waiters.len() == 0
            &&& after.send_select_waiters == s.send_select_waiters
            &&& timer.fired_wakes(s, now, b) == s.arrival_wakes_every(b)
        },
{
}

/// A timer that goes on stands where it stands, and one that is used up nowhere.
pub proof fn law_standing_is_where_it_is(timer: Timer)
    ensures
        standing(Some(timer)) == Some(timer@),
        standing(None) == None::<TimerView>,
{
}

} // verus!
