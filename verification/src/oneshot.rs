//! Channel for a single message.
//!
//! The sender is used up by its one send. A receive waits until the sender has sent or gone away.
//! Receiver handles can be cloned, as a select needs; the clones race for the one message, and
//! whoever comes too late finds the channel disconnected.
use vstd::prelude::*;

use core::marker::PhantomData;

use crate::error::{RecvError, SendError, TryRecvError};
use crate::ports::{lemma_woken_all_in_two_parts, Step};
use crate::selectable::{ArmOpTrait, Channels, SelectableReceiver};
use crate::store::Store;
use crate::tickets::{held, TicketCell};
use crate::waiter::{
    abort_select_waiters, drain_select_waiters, law_wake_all_unparks_everyone,
    law_without_is_a_filter, new_recv_waiter_list, pending, push_select_waiter,
    register_plain_recv_waiter, threads_of, wake_all_recv_waiters, wake_select_all, without,
    woken_all, Board, BoardView, RecvWaiter, RecvWaiterGuard, RecvWaiterList, SelectStack,
    SelectWaiter, UNSELECTED,
};

verus! {

// ── Model ────────────────────────────────────────────────────────────────────
/// What became of the sender.
#[derive(Debug, Clone, Copy, PartialEq, Eq, Structural)]
pub enum SenderState {
    /// It is there and has not sent yet.
    Open,
    /// It has sent.
    Sent,
    /// It went away without sending.
    Dropped,
}

/// The contents of a oneshot channel.
#[verifier::ext_equal]
pub struct OneshotView<T> {
    pub state: SenderState,
    /// The message, if it was sent and not received yet.
    pub value: Option<T>,
    /// Threads blocked in a receive.
    pub recv_waiters: Seq<RecvWaiter>,
    /// Recv arms of waiting selects.
    pub select_waiters: Seq<SelectWaiter>,
    /// Number of live receiver handles.
    pub receivers: nat,
}

impl<T> OneshotView<T> {
    pub open spec fn fresh() -> Self {
        OneshotView {
            state: SenderState::Open,
            value: None,
            recv_waiters: Seq::empty(),
            select_waiters: Seq::empty(),
            receivers: 1,
        }
    }

    // ── Sending ──────────────────────────────────────────────────────────
    /// A send would succeed.
    pub open spec fn accepts(self) -> bool {
        self.receivers > 0
    }

    /// What a send reports: a value that is not accepted is handed back.
    pub open spec fn send_result(self, val: T) -> Result<(), SendError<T>> {
        if self.accepts() {
            Ok(())
        } else {
            Err(SendError(val))
        }
    }

    /// After the send, or after the attempt: the sender is used up either way.
    pub open spec fn sent(self, val: T) -> Self {
        if self.accepts() {
            OneshotView {
                state: SenderState::Sent,
                value: Some(val),
                select_waiters: Seq::empty(),
                ..self
            }
        } else {
            self.sender_closed()
        }
    }

    /// After the sender went away without sending.
    pub open spec fn sender_closed(self) -> Self {
        OneshotView { state: SenderState::Dropped, select_waiters: Seq::empty(), ..self }
    }

    /// Whom the sender wakes when it is used up: everybody who waits to receive.
    pub open spec fn sender_used_wakes(self, b: BoardView) -> BoardView {
        woken_all(pending(self.select_waiters), woken_all(self.recv_waiters, b))
    }

    // ── Receiving ────────────────────────────────────────────────────────
    /// What a receive gives right now; `None` if it has to wait.
    pub open spec fn offer(self) -> Option<Result<T, RecvError>> {
        match self.state {
            SenderState::Open => None,
            SenderState::Sent => match self.value {
                Some(val) => Some(Ok(val)),
                None => Some(Err(RecvError::Disconnected)),
            },
            SenderState::Dropped => Some(Err(RecvError::Disconnected)),
        }
    }

    /// After a receive that does not wait: the message is gone.
    pub open spec fn received(self) -> Self {
        OneshotView { value: None, ..self }
    }

    /// What a non-blocking receive returns.
    pub open spec fn try_recv_result(self) -> Result<T, TryRecvError> {
        match self.offer() {
            Some(Ok(val)) => Ok(val),
            Some(Err(_)) => Err(TryRecvError::Disconnected),
            None => Err(TryRecvError::Empty),
        }
    }

    /// With one more thread blocked in a receive.
    pub open spec fn waiting(self, waiter: RecvWaiter) -> Self {
        OneshotView { recv_waiters: self.recv_waiters.push(waiter), ..self }
    }

    /// Without the blocked receive of the given cell.
    pub open spec fn released(self, cell: u64) -> Self {
        OneshotView { recv_waiters: without(self.recv_waiters, cell), ..self }
    }

    /// What the first step of a blocking receive may lead to: the offer, if there is one; else a
    /// wait on a fresh cell.
    pub open spec fn recv_step(
        self,
        b: BoardView,
        thread: u64,
        r: Step<Result<T, RecvError>, RecvWaiterGuard>,
        after: Self,
        b_after: BoardView,
    ) -> bool {
        match self.offer() {
            Some(out) => {
                &&& r == Step::<Result<T, RecvError>, RecvWaiterGuard>::Done(out)
                &&& after == self.received()
                &&& b_after == b
            },
            None => {
                &&& r matches Step::Wait(guard)
                &&& !b.cells.contains_key(guard.cell())
                &&& after == self.waiting(
                    RecvWaiter { case_id: UNSELECTED, selected: guard.cell(), thread },
                )
                &&& b_after == b.opened(guard.cell())
            },
        }
    }

    /// What the second look of a registered receive leads to: the offer, if there is one by now,
    /// with the registration undone; else the thread is to park.
    pub open spec fn recheck_step(
        self,
        b: BoardView,
        guard: RecvWaiterGuard,
        r: Step<Result<T, RecvError>, RecvWaiterGuard>,
        after: Self,
        b_after: BoardView,
    ) -> bool {
        match self.offer() {
            Some(out) => {
                &&& r == Step::<Result<T, RecvError>, RecvWaiterGuard>::Done(out)
                &&& after == self.received().released(guard.cell())
                &&& b_after == b.closed(guard.cell())
            },
            None => {
                &&& r == Step::<Result<T, RecvError>, RecvWaiterGuard>::Wait(guard)
                &&& after == self
                &&& b_after == b
            },
        }
    }

    // ── Handles ──────────────────────────────────────────────────────────
    pub open spec fn receiver_added(self) -> Self {
        OneshotView { receivers: self.receivers + 1, ..self }
    }

    /// After a receiver handle went away; the last one takes the select waiters along.
    pub open spec fn receiver_closed(self) -> Self {
        OneshotView {
            receivers: (self.receivers - 1) as nat,
            select_waiters: if self.receivers == 1 {
                Seq::empty()
            } else {
                self.select_waiters
            },
            ..self
        }
    }
}

// ── Channel ──────────────────────────────────────────────────────────────────
/// A value that can be taken once.
struct ValueCell<T> {
    value: Option<T>,
}

impl<T> ValueCell<T> {
    fn new(value: T) -> (r: Self)
        ensures
            r.value == Some(value),
    {
        ValueCell { value: Some(value) }
    }

    /// Takes the value, unless it was taken before.
    fn take(&mut self) -> (r: Option<T>)
        ensures
            r == old(self).value,
            final(self).value is None,
    {
        self.value.take()
    }
}

/// The state that all handles of a channel share.
pub struct Chan<T> {
    /// The ticket of the message.
    value: TicketCell,
    store: Store<ValueCell<T>>,
    recv_waiters: RecvWaiterList,
    select_waiters: SelectStack,
    sender_state: SenderState,
    receiver_count: usize,
}

impl<T> View for Chan<T> {
    type V = OneshotView<T>;

    closed spec fn view(&self) -> OneshotView<T> {
        OneshotView {
            state: self.sender_state,
            value: match held(self.value) {
                Some(ticket) => self.store@[ticket].value,
                None => None,
            },
            recv_waiters: self.recv_waiters@,
            select_waiters: self.select_waiters@,
            receivers: self.receiver_count as nat,
        }
    }
}

impl<T> Chan<T> {
    /// The ticket names a cell whose value was not taken, and there is none before the send.
    pub closed spec fn wf(&self) -> bool {
        &&& self.store.wf()
        &&& held(self.value) matches Some(ticket) ==> {
            &&& self.sender_state == SenderState::Sent
            &&& self.store@.contains_key(ticket)
            &&& self.store@[ticket].value is Some
        }
    }

    /// There is a message only after the sender has sent.
    pub proof fn law_no_message_unless_sent(&self)
        requires
            self.wf(),
        ensures
            self@.value is Some ==> self@.state == SenderState::Sent,
    {
    }
}

/// The sender handle.
pub struct Sender<T> {
    _message: PhantomData<T>,
}

/// A receiver handle.
pub struct Receiver<T> {
    _message: PhantomData<T>,
}

/// Creates a channel, with its sender and its first receiver.
pub fn channel<T>() -> (r: (Chan<T>, Sender<T>, Receiver<T>))
    ensures
        r.0.wf(),
        r.0@ == OneshotView::<T>::fresh(),
{
    let chan = Chan {
        value: TicketCell::empty(),
        store: Store::new(),
        recv_waiters: new_recv_waiter_list(),
        select_waiters: SelectStack::new(),
        sender_state: SenderState::Open,
        receiver_count: 1,
    };
    (chan, Sender { _message: PhantomData }, Receiver { _message: PhantomData })
}

impl<T> Sender<T> {
    /// Whether all receivers are gone.
    pub fn is_closed(&self, chan: &Chan<T>) -> (r: bool)
        ensures
            r == (chan@.receivers == 0),
    {
        chan.receiver_count == 0
    }

    /// Sends `val`, or hands it back if all receivers are gone.
    pub fn send(self, chan: &mut Chan<T>, board: &mut Board, val: T) -> (r: Result<
        (),
        SendError<T>,
    >)
        requires
            old(chan).wf(),
            old(board).wf(),
            old(chan)@.state == SenderState::Open,
        ensures
            final(chan).wf(),
            final(board).wf(),
            r == (if old(chan)@.accepts() {
                Ok(())
            } else {
                Err(SendError(val))
            }),
            r == old(chan)@.send_result(val),
            final(chan)@ == old(chan)@.sent(val),
            final(board)@ == old(chan)@.sender_used_wakes(old(board)@),
    {
        if self.is_closed(chan) {
            self.close(chan, board);
            return Err(SendError(val));
        }
        let ticket = chan.store.insert(ValueCell::new(val));
        chan.value.store(Some(ticket));
        chan.sender_state = SenderState::Sent;
        wake_all_recv_waiters(&chan.recv_waiters, board);
        wake_select_all(&mut chan.select_waiters, board);
        Ok(())
    }

    /// Gives the handle up without sending.
    pub fn close(self, chan: &mut Chan<T>, board: &mut Board)
        requires
            old(chan).wf(),
            old(board).wf(),
            old(chan)@.state == SenderState::Open,
        ensures
            final(chan).wf(),
            final(board).wf(),
            final(chan)@ == old(chan)@.sender_closed(),
            final(board)@ == old(chan)@.sender_used_wakes(old(board)@),
    {
        chan.sender_state = SenderState::Dropped;
        wake_all_recv_waiters(&chan.recv_waiters, board);
        wake_select_all(&mut chan.select_waiters, board);
    }
}

impl<T> Receiver<T> {
    /// Another handle on the same channel.
    pub fn clone(&self, chan: &mut Chan<T>) -> (r: Receiver<T>)
        requires
            old(chan).wf(),
            old(chan)@.receivers < usize::MAX,
        ensures
            final(chan).wf(),
            final(chan)@ == old(chan)@.receiver_added(),
    {
        chan.receiver_count = chan.receiver_count + 1;
        Receiver { _message: PhantomData }
    }

    /// Gives the handle up.
    pub fn close(self, chan: &mut Chan<T>)
        requires
            old(chan).wf(),
            old(chan)@.receivers > 0,
        ensures
            final(chan).wf(),
            final(chan)@ == old(chan)@.receiver_closed(),
    {
        let prev: usize = chan.receiver_count;
        chan.receiver_count = prev - 1;
        if prev == 1 {
            drain_select_waiters(&mut chan.select_waiters);
        }
    }

    /// Receives without waiting.
    pub fn try_recv(&self, chan: &mut Chan<T>) -> (r: Result<T, TryRecvError>)
        requires
            old(chan).wf(),
        ensures
            final(chan).wf(),
            r == old(chan)@.try_recv_result(),
            final(chan)@ == old(chan)@.received(),
    {
        match chan.sender_state {
            SenderState::Sent => {
                if let Some(ticket) = chan.value.swap(None) {
                    if let Some(mut cell) = chan.store.take(ticket) {
                        if let Some(val) = cell.take() {
                            return Ok(val);
                        }
                    }
                }
                Err(TryRecvError::Disconnected)
            },
            SenderState::Open => Err(TryRecvError::Empty),
            SenderState::Dropped => Err(TryRecvError::Disconnected),
        }
    }

    /// Begins a blocking receive: takes what is there, or registers `thread` as a waiter.
    ///
    /// After `Wait` comes [`Receiver::recheck`].
    pub fn recv(&self, chan: &mut Chan<T>, board: &mut Board, thread: u64) -> (r: Step<
        Result<T, RecvError>,
        RecvWaiterGuard,
    >)
        requires
            old(chan).wf(),
            old(board).wf(),
        ensures
            final(chan).wf(),
            final(board).wf(),
            old(chan)@.recv_step(old(board)@, thread, r, final(chan)@, final(board)@),
    {
        match self.try_recv(chan) {
            Ok(val) => Step::Done(Ok(val)),
            Err(_) => if chan.sender_state != SenderState::Open {
                Step::Done(Err(RecvError::Disconnected))
            } else {
                Step::Wait(register_plain_recv_waiter(&mut chan.recv_waiters, board, thread))
            },
        }
    }

    /// Looks again after registration, so that what happened in between is not missed.
    ///
    /// After `Wait` the thread parks, and once it is unparked comes [`Receiver::resume`].
    pub fn recheck(&self, chan: &mut Chan<T>, board: &mut Board, guard: RecvWaiterGuard) -> (r:
        Step<Result<T, RecvError>, RecvWaiterGuard>)
        requires
            old(chan).wf(),
            old(board).wf(),
        ensures
            final(chan).wf(),
            final(board).wf(),
            old(chan)@.recheck_step(old(board)@, guard, r, final(chan)@, final(board)@),
    {
        match self.try_recv(chan) {
            Ok(val) => {
                guard.release(&mut chan.recv_waiters, board);
                Step::Done(Ok(val))
            },
            Err(_) => if chan.sender_state != SenderState::Open {
                guard.release(&mut chan.recv_waiters, board);
                Step::Done(Err(RecvError::Disconnected))
            } else {
                Step::Wait(guard)
            },
        }
    }

    /// Goes on after the thread was unparked: undoes the registration and begins anew.
    pub fn resume(
        &self,
        chan: &mut Chan<T>,
        board: &mut Board,
        thread: u64,
        guard: RecvWaiterGuard,
    ) -> (r: Step<Result<T, RecvError>, RecvWaiterGuard>)
        requires
            old(chan).wf(),
            old(board).wf(),
        ensures
            final(chan).wf(),
            final(board).wf(),
            old(chan)@.released(guard.cell()).recv_step(
                old(board)@.closed(guard.cell()),
                thread,
                r,
                final(chan)@,
                final(board)@,
            ),
    {
        guard.release(&mut chan.recv_waiters, board);
        self.recv(chan, board, thread)
    }

    /// Receives after this arm of a select was selected.
    pub fn complete_recv(&self, chan: &mut Chan<T>, board: &mut Board, thread: u64) -> (r: Step<
        Result<T, RecvError>,
        RecvWaiterGuard,
    >)
        requires
            old(chan).wf(),
            old(board).wf(),
        ensures
            final(chan).wf(),
            final(board).wf(),
            old(chan)@.recv_step(old(board)@, thread, r, final(chan)@, final(board)@),
    {
        self.recv(chan, board, thread)
    }
}

// ── Select ───────────────────────────────────────────────────────────────────
impl<T> Channels for Chan<T> {
    type State = OneshotView<T>;

    type Port = ();

    open spec fn state(&self) -> OneshotView<T> {
        self@
    }

    open spec fn valid(&self) -> bool {
        self.wf()
    }

    open spec fn has_port(s: OneshotView<T>, port: ()) -> bool {
        true
    }

    open spec fn stack(s: OneshotView<T>, port: ()) -> Seq<SelectWaiter> {
        s.select_waiters
    }

    open spec fn with_stack(s: OneshotView<T>, port: (), waiters: Seq<SelectWaiter>) -> OneshotView<
        T,
    > {
        OneshotView { select_waiters: waiters, ..s }
    }

    proof fn stacks_are_independent(
        s: OneshotView<T>,
        port: (),
        other: (),
        waiters: Seq<SelectWaiter>,
    ) {
    }
}

impl<T> ArmOpTrait for Receiver<T> {
    type World = Chan<T>;

    open spec fn fits(&self, s: OneshotView<T>) -> bool {
        true
    }

    /// The sender has sent or gone away.
    open spec fn ready(&self, s: OneshotView<T>) -> bool {
        s.state != SenderState::Open
    }

    open spec fn looked(&self, s: OneshotView<T>) -> Self {
        *self
    }

    open spec fn enrolled(&self, s: OneshotView<T>) -> Self {
        *self
    }

    open spec fn enlists(&self, s: OneshotView<T>) -> bool {
        s.state == SenderState::Open
    }

    open spec fn port(&self) -> () {
        ()
    }

    proof fn readiness_is_stable(&self, s: OneshotView<T>, port: (), waiters: Seq<SelectWaiter>) {
    }

    fn is_ready(&mut self, world: &Chan<T>) -> (r: bool) {
        world.sender_state != SenderState::Open
    }

    fn register_select(&mut self, world: &mut Chan<T>, case_id: usize, selected: u64, thread: u64) {
        if world.sender_state != SenderState::Open {
            return ;
        }
        push_select_waiter(
            SelectWaiter::new(case_id, selected, thread),
            &mut world.select_waiters,
        );
    }

    fn abort_select(&self, world: &mut Chan<T>, selected: u64) {
        abort_select_waiters(&mut world.select_waiters, selected);
    }
}

impl<T> SelectableReceiver for Receiver<T> {
    type Output = T;

    type Pending = RecvWaiterGuard;

    open spec fn completes(
        before: (Self, OneshotView<T>, BoardView),
        thread: u64,
        after: (Self, OneshotView<T>, BoardView),
        r: Step<Result<T, RecvError>, RecvWaiterGuard>,
    ) -> bool {
        &&& after.0 == before.0
        &&& before.1.recv_step(before.2, thread, r, after.1, after.2)
    }

    proof fn law_ready_arm_completes(
        before: (Self, OneshotView<T>, BoardView),
        thread: u64,
        after: (Self, OneshotView<T>, BoardView),
        r: Step<Result<T, RecvError>, RecvWaiterGuard>,
    ) {
    }

    proof fn law_idle_arm_waits(
        before: (Self, OneshotView<T>, BoardView),
        thread: u64,
        after: (Self, OneshotView<T>, BoardView),
        r: Step<Result<T, RecvError>, RecvWaiterGuard>,
    ) {
    }

    fn complete(&mut self, world: &mut Chan<T>, board: &mut Board, thread: u64) -> (r: Step<
        Result<T, RecvError>,
        RecvWaiterGuard,
    >) {
        self.complete_recv(world, board, thread)
    }
}

// ── Laws ─────────────────────────────────────────────────────────────────────
/// What was sent is received once: the first receive gives the message, and every later one finds
/// the channel disconnected.
pub proof fn law_delivered_once<T>(s: OneshotView<T>, val: T)
    requires
        s.receivers > 0,
    ensures
        s.sent(val).offer() == Some(Ok::<T, RecvError>(val)),
        s.sent(val).received().offer() == Some(Err::<T, RecvError>(RecvError::Disconnected)),
        s.sent(val).received().received() == s.sent(val).received(),
{
}

/// A sender that goes away without sending leaves the channel disconnected; so does one whose send
/// failed.
pub proof fn law_dropped_sender_disconnects<T>(s: OneshotView<T>, val: T)
    ensures
        s.sender_closed().offer() == Some(Err::<T, RecvError>(RecvError::Disconnected)),
        s.receivers == 0 ==> s.sent(val) == s.sender_closed(),
{
}

/// A receive waits only as long as the sender is there and has not sent, and whatever becomes of
/// the sender, everybody who waits is unparked.
pub proof fn law_no_receiver_is_left_waiting<T>(s: OneshotView<T>, b: BoardView)
    ensures
        s.offer() is None <==> s.state == SenderState::Open,
        s.sender_used_wakes(b).unparked == b.unparked + threads_of(s.recv_waiters) + threads_of(
            pending(s.select_waiters),
        ),
{
    law_wake_all_unparks_everyone(s.recv_waiters, b);
    law_wake_all_unparks_everyone(pending(s.select_waiters), woken_all(s.recv_waiters, b));
}

// ── What the operations do ───────────────────────────────────────────────────
/// A new channel has its sender, which has not sent, one receiver, no message and nobody waiting.
pub proof fn law_new_channel_is_open<T>()
    ensures
        OneshotView::<T>::fresh() == (OneshotView::<T> {
            state: SenderState::Open,
            value: None,
            recv_waiters: Seq::empty(),
            select_waiters: Seq::empty(),
            receivers: 1,
        }),
{
}

/// A send succeeds exactly if a receiver is left; then the very value is there to be received, and
/// else it is handed back. The sender is used up either way, with everybody who waits woken and the
/// recv arms off their stack; nothing else changes. A sender that goes without sending leaves the
/// message as it is.
pub proof fn law_send_leaves_its_value<T>(s: OneshotView<T>, b: BoardView, val: T)
    ensures
        s.accepts() <==> s.receivers > 0,
        s.receivers > 0 ==> s.send_result(val) == Ok::<(), SendError<T>>(()),
        s.receivers == 0 ==> s.send_result(val) == Err::<(), SendError<T>>(SendError(val)),
        s.receivers > 0 ==> s.sent(val) == (OneshotView {
            state: SenderState::Sent,
            value: Some(val),
            recv_waiters: s.recv_waiters,
            select_waiters: Seq::empty(),
            receivers: s.receivers,
        }),
        s.receivers == 0 ==> s.sent(val) == (OneshotView {
            state: SenderState::Dropped,
            value: s.value,
            recv_waiters: s.recv_waiters,
            select_waiters: Seq::empty(),
            receivers: s.receivers,
        }),
        s.sender_closed() == (OneshotView {
            state: SenderState::Dropped,
            value: s.value,
            recv_waiters: s.recv_waiters,
            select_waiters: Seq::empty(),
            receivers: s.receivers,
        }),
        s.sender_used_wakes(b) == woken_all(s.recv_waiters + pending(s.select_waiters), b),
{
    lemma_woken_all_in_two_parts(s.recv_waiters, pending(s.select_waiters), b);
}

/// A receive gives the message if it was sent and not received yet, and takes it; it finds the
/// channel empty exactly while the sender is there and has not sent, and disconnected in every
/// other case.
pub proof fn law_receive_takes_the_message<T>(s: OneshotView<T>)
    ensures
        s.state == SenderState::Open ==> s.offer() is None && s.try_recv_result() == Err::<
            T,
            TryRecvError,
        >(TryRecvError::Empty),
        s.state == SenderState::Sent && s.value is Some ==> s.offer() == Some(
            Ok::<T, RecvError>(s.value->0),
        ) && s.try_recv_result() == Ok::<T, TryRecvError>(s.value->0),
        s.state == SenderState::Dropped || (s.state == SenderState::Sent && s.value is None)
            ==> s.offer() == Some(Err::<T, RecvError>(RecvError::Disconnected))
            && s.try_recv_result() == Err::<T, TryRecvError>(TryRecvError::Disconnected),
        s.received().value is None,
        s.received().state == s.state,
        s.received().recv_waiters == s.recv_waiters,
        s.received().select_waiters == s.select_waiters,
        s.received().receivers == s.receivers,
{
}

/// What a blocking receive comes to: the message, taken; the disconnection; or a wait, exactly
/// while the sender is there and has not sent. The first step waits on a fresh cell with the thread
/// at the end of the list; the second look leaves everything as it is if it waits, and takes the
/// registration back if it does not.
pub proof fn law_blocking_receive_takes_the_message<T>(
    s: OneshotView<T>,
    b: BoardView,
    thread: u64,
    guard: RecvWaiterGuard,
    r: Step<Result<T, RecvError>, RecvWaiterGuard>,
    after: OneshotView<T>,
    b_after: BoardView,
)
    ensures
        s.recv_step(b, thread, r, after, b_after) || s.recheck_step(
            b,
            guard,
            r,
            after,
            b_after,
        ) ==> {
            &&& r is Wait <==> s.state == SenderState::Open
            &&& s.state == SenderState::Sent && s.value is Some ==> r == Step::<
                Result<T, RecvError>,
                RecvWaiterGuard,
            >::Done(Ok(s.value->0))
            &&& s.state == SenderState::Dropped || (s.state == SenderState::Sent && s.value is None)
                ==> r == Step::<Result<T, RecvError>, RecvWaiterGuard>::Done(
                Err(RecvError::Disconnected),
            )
            &&& r is Done ==> after.value is None
            &&& r is Wait ==> after.value == s.value
            &&& after.state == s.state
            &&& after.receivers == s.receivers
            &&& after.select_waiters == s.select_waiters
            &&& b_after.unparked == b.unparked
            &&& b_after.turn == b.turn
        },
        s.recv_step(b, thread, r, after, b_after) && r is Wait ==> {
            &&& !b.cells.contains_key(r->Wait_0.cell())
            &&& after.recv_waiters == s.recv_waiters.push(
                RecvWaiter { case_id: usize::MAX, selected: r->Wait_0.cell(), thread },
            )
            &&& b_after.cells == b.cells.insert(r->Wait_0.cell(), usize::MAX)
        },
        s.recv_step(b, thread, r, after, b_after) && r is Done ==> after.recv_waiters
            == s.recv_waiters && b_after == b,
        s.recheck_step(b, guard, r, after, b_after) && r is Wait ==> {
            &&& r == Step::<Result<T, RecvError>, RecvWaiterGuard>::Wait(guard)
            &&& after == s
            &&& b_after == b
        },
        s.recheck_step(b, guard, r, after, b_after) && r is Done ==> {
            &&& after.recv_waiters == s.recv_waiters.filter(
                |w: RecvWaiter| w.selected != guard.cell(),
            )
            &&& b_after.cells == b.cells.remove(guard.cell())
        },
{
    law_without_is_a_filter(s.recv_waiters, guard.cell());
}

/// Waits and receiver handles change only what is theirs.
pub proof fn law_receivers_leave_the_message<T>(
    s: OneshotView<T>,
    waiter: RecvWaiter,
    cell: u64,
)
    ensures
        s.waiting(waiter) == (OneshotView {
            state: s.state,
            value: s.value,
            recv_waiters: s.recv_waiters.push(waiter),
            select_waiters: s.select_waiters,
            receivers: s.receivers,
        }),
        s.released(cell) == (OneshotView {
            state: s.state,
            value: s.value,
            recv_waiters: s.recv_waiters.filter(|w: RecvWaiter| w.selected != cell),
            select_waiters: s.select_waiters,
            receivers: s.receivers,
        }),
        s.receiver_added() == (OneshotView {
            state: s.state,
            value: s.value,
            recv_waiters: s.recv_waiters,
            select_waiters: s.select_waiters,
            receivers: s.receivers + 1,
        }),
        s.receivers > 0 ==> s.receiver_closed().receivers + 1 == s.receivers,
        s.receivers > 1 ==> s.receiver_closed().select_waiters == s.select_waiters,
        s.receivers == 1 ==> s.receiver_closed().select_waiters.len() == 0,
        s.receiver_closed().state == s.state,
        s.receiver_closed().value == s.value,
        s.receiver_closed().recv_waiters == s.recv_waiters,
{
    law_without_is_a_filter(s.recv_waiters, cell);
}

/// A recv arm is ready exactly if the sender has sent or gone, leaves a waiter exactly if it has
/// not, and its completion is a receive.
pub proof fn law_recv_arm_receives<T>(
    rx: Receiver<T>,
    s: OneshotView<T>,
    b: BoardView,
    thread: u64,
    after: (Receiver<T>, OneshotView<T>, BoardView),
    r: Step<Result<T, RecvError>, RecvWaiterGuard>,
)
    ensures
        rx.ready(s) <==> s.state == SenderState::Sent || s.state == SenderState::Dropped,
        rx.enlists(s) <==> s.state == SenderState::Open,
        rx.fits(s),
        rx.looked(s) == rx,
        rx.enrolled(s) == rx,
        Receiver::<T>::completes((rx, s, b), thread, after, r) ==> {
            &&& after.0 == rx
            &&& r is Wait <==> s.state == SenderState::Open
            &&& s.state == SenderState::Sent && s.value is Some ==> {
                &&& r == Step::<Result<T, RecvError>, RecvWaiterGuard>::Done(Ok(s.value->0))
                &&& after.1.value is None
            }
            &&& s.state == SenderState::Dropped || (s.state == SenderState::Sent && s.value is None)
                ==> r == Step::<Result<T, RecvError>, RecvWaiterGuard>::Done(
                Err(RecvError::Disconnected),
            )
            &&& after.1.state == s.state
            &&& after.1.receivers == s.receivers
        },
{
}

/// As a world of a select, a channel shows its contents, with one stack of waiters.
pub proof fn law_channel_is_its_own_world<T>(
    chan: Chan<T>,
    s: OneshotView<T>,
    waiters: Seq<SelectWaiter>,
)
    ensures
        chan.state() == chan@,
        chan.valid() == chan.wf(),
        <Chan<T> as Channels>::has_port(s, ()),
        <Chan<T> as Channels>::stack(s, ()) == s.select_waiters,
        <Chan<T> as Channels>::with_stack(s, (), waiters) == (OneshotView {
            select_waiters: waiters,
            ..s
        }),
{
}

} // verus!
