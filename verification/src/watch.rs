//! Channel for the latest value, with change notifications.
//!
//! Senders overwrite one shared value; only the latest is kept. Every change advances a version and
//! wakes everybody who waits for one. Each receiver has a cursor of its own, so that a change that
//! one receiver has noticed is still news to the others.
use vstd::prelude::*;

use core::marker::PhantomData;
use std::sync::Arc;

use crate::error::{RecvError, SendError};
use crate::ports::{lemma_woken_all_in_two_parts, Port, Ports, PortsView, Step};
use crate::selectable::{ArmOpTrait, Channels, SelectableReceiver, SelectableSender};
use crate::store::Store;
use crate::tickets::{held, TicketCell};
use crate::waiter::{
    abort_select_waiters, law_wake_all_unparks_everyone, pending, push_select_waiter, threads_of,
    wake_all_recv_waiters, wake_select_all, woken_all, Board, BoardView, RecvWaiter,
    RecvWaiterGuard, SelectWaiter,
};

verus! {

// ── Model ────────────────────────────────────────────────────────────────────
/// The contents of a watch channel.
#[verifier::ext_equal]
pub struct WatchView<T> {
    /// Counts the changes, modulo the machine word.
    pub version: usize,
    /// The latest value, if one was ever sent.
    pub value: Option<T>,
    /// Waiters and handle counts.
    pub ports: PortsView,
}

/// What a receiver remembers of the versions it has seen.
#[derive(Debug, Clone, Copy, PartialEq, Eq, Structural)]
pub struct Cursor {
    /// The version from which on changes count.
    pub version: usize,
    /// The version was fixed by a look at the channel and no change was consumed since.
    pub armed: bool,
}

impl Cursor {
    /// Fixed at the current version, unless it was fixed before.
    pub open spec fn armed_at(self, version: usize) -> Cursor {
        if self.armed {
            self
        } else {
            Cursor { version, armed: true }
        }
    }

    pub open spec fn disarmed(self) -> Cursor {
        Cursor { armed: false, ..self }
    }

    /// The cursor of the first receiver.
    pub open spec fn fresh() -> Cursor {
        Cursor { version: 0, armed: false }
    }

    /// The cursor of a clone of the receiver.
    pub open spec fn copied(self) -> Cursor {
        self
    }
}

impl<T: Clone> WatchView<T> {
    /// A borrow may give this: a clone of the latest value, if there is one.
    pub open spec fn lends(self, r: Option<T>) -> bool {
        match self.value {
            Some(value) => r matches Some(lent) && cloned(value, lent),
            None => r is None,
        }
    }
}

impl<T> WatchView<T> {
    pub open spec fn fresh() -> Self {
        WatchView { version: 0, value: None, ports: PortsView::fresh() }
    }

    // ── Sending ──────────────────────────────────────────────────────────
    /// After a change was announced.
    pub open spec fn bumped(self) -> Self {
        WatchView {
            version: self.version.wrapping_add(1),
            ports: self.ports.select_drained(),
            ..self
        }
    }

    /// What a send or an announcement reports: with no receiver left, the value comes back.
    pub open spec fn send_result<V>(self, value: V) -> Result<(), SendError<V>> {
        if self.ports.receivers > 0 {
            Ok(())
        } else {
            Err(SendError(value))
        }
    }

    /// After an attempt to send.
    pub open spec fn sent(self, value: T) -> Self {
        if self.ports.receivers > 0 {
            WatchView { value: Some(value), ..self.bumped() }
        } else {
            self
        }
    }

    /// After an attempt to announce a change.
    pub open spec fn marked(self) -> Self {
        if self.ports.receivers > 0 {
            self.bumped()
        } else {
            self
        }
    }

    /// Whom a change wakes: everybody who waits.
    pub open spec fn change_wakes(self, b: BoardView) -> BoardView {
        woken_all(pending(self.ports.select_waiters), woken_all(self.ports.recv_waiters, b))
    }

    /// Whom an attempt to send or to announce a change wakes.
    pub open spec fn sent_wakes(self, b: BoardView) -> BoardView {
        if self.ports.receivers > 0 {
            self.change_wakes(b)
        } else {
            b
        }
    }

    // ── Waiting for a change ─────────────────────────────────────────────
    /// A change since `baseline` or a disconnection is to be reported.
    pub open spec fn has_news(self, baseline: usize) -> bool {
        self.version != baseline || self.ports.senders == 0
    }

    /// What is reported when there is news: a change comes before a disconnection.
    pub open spec fn news(self, baseline: usize) -> Result<usize, RecvError> {
        if self.version != baseline {
            Ok(self.version)
        } else {
            Err(RecvError::Disconnected)
        }
    }

    /// The cursor after news was reported.
    pub open spec fn cursor_after_news(self, cursor: Cursor, baseline: usize) -> Cursor {
        if self.version != baseline {
            Cursor { version: self.version, armed: false }
        } else {
            cursor.disarmed()
        }
    }

    /// What the beginning of a wait for the next change may lead to: the disconnection, or a wait
    /// for a change since now.
    pub open spec fn changed_step(
        self,
        cursor: Cursor,
        b: BoardView,
        thread: u64,
        r: Step<Result<(), RecvError>, ChangeWait>,
        cursor_after: Cursor,
        after: Self,
        b_after: BoardView,
    ) -> bool {
        if self.ports.senders == 0 {
            &&& r == Step::<Result<(), RecvError>, ChangeWait>::Done(Err(RecvError::Disconnected))
            &&& cursor_after == cursor.disarmed()
            &&& after == self
            &&& b_after == b
        } else {
            self.await_step(
                cursor.armed_at(self.version),
                b,
                self.version,
                thread,
                |out: Result<usize, RecvError>| only_whether(out),
                r,
                cursor_after,
                after,
                b_after,
            )
        }
    }

    /// What the second look of a wait leads to: the news, with the wait undone; or the same wait.
    pub open spec fn recheck_step(
        self,
        cursor: Cursor,
        b: BoardView,
        wait: ChangeWait,
        r: Step<Result<(), RecvError>, ChangeWait>,
        cursor_after: Cursor,
        after: Self,
        b_after: BoardView,
    ) -> bool {
        if self.has_news(wait.baseline()) {
            &&& r == Step::<Result<(), RecvError>, ChangeWait>::Done(
                only_whether(self.news(wait.baseline())),
            )
            &&& cursor_after == self.cursor_after_news(cursor, wait.baseline())
            &&& after == self.released(wait.cell())
            &&& b_after == b.closed(wait.cell())
        } else {
            &&& r == Step::<Result<(), RecvError>, ChangeWait>::Wait(wait)
            &&& cursor_after == cursor
            &&& after == self
            &&& b_after == b
        }
    }

    /// With one more thread waiting for a change.
    pub open spec fn waiting(self, waiter: RecvWaiter) -> Self {
        WatchView { ports: self.ports.waiting(waiter), ..self }
    }

    /// Without the wait of the given cell.
    pub open spec fn released(self, cell: u64) -> Self {
        WatchView { ports: self.ports.released(cell), ..self }
    }

    /// What a step of waiting for a change since `baseline` may lead to: the news, if there is any;
    /// else a wait on a fresh cell.
    pub open spec fn await_step<R>(
        self,
        cursor: Cursor,
        b: BoardView,
        baseline: usize,
        thread: u64,
        done: spec_fn(Result<usize, RecvError>) -> R,
        r: Step<R, ChangeWait>,
        cursor_after: Cursor,
        after: Self,
        b_after: BoardView,
    ) -> bool {
        if self.has_news(baseline) {
            &&& r == Step::<R, ChangeWait>::Done(done(self.news(baseline)))
            &&& cursor_after == self.cursor_after_news(cursor, baseline)
            &&& after == self
            &&& b_after == b
        } else {
            &&& r matches Step::Wait(wait)
            &&& wait.baseline() == baseline
            &&& !b.cells.contains_key(wait.cell())
            &&& cursor_after == cursor
            &&& after == self.waiting(RecvWaiter { case_id: 0, selected: wait.cell(), thread })
            &&& b_after == b.opened(wait.cell())
        }
    }

    // ── Handles ──────────────────────────────────────────────────────────
    pub open spec fn sender_added(self) -> Self {
        WatchView { ports: self.ports.sender_added(), ..self }
    }

    pub open spec fn sender_closed(self) -> Self {
        WatchView { ports: self.ports.sender_closed(), ..self }
    }

    pub open spec fn receiver_added(self) -> Self {
        WatchView { ports: self.ports.receiver_added(), ..self }
    }

    pub open spec fn receiver_closed(self) -> Self {
        WatchView { ports: self.ports.receiver_closed(), ..self }
    }
}

/// The value behind a shared handle.
pub open spec fn shared_value<T>(r: Option<Arc<T>>) -> Option<T> {
    match r {
        Some(value) => Some(*value),
        None => None,
    }
}

/// The result without the version.
pub open spec fn only_whether(r: Result<usize, RecvError>) -> Result<(), RecvError> {
    match r {
        Ok(_) => Ok(()),
        Err(e) => Err(e),
    }
}

// ── Channel ──────────────────────────────────────────────────────────────────
/// `Arc::clone`: another handle on the same value.
#[verifier::external_body]
fn share<T>(value: &Arc<T>) -> (r: Arc<T>)
    ensures
        r == *value,
{
    Arc::clone(value)
}

/// The state that all handles of a channel share.
pub struct Chan<T> {
    version: usize,
    /// The ticket of the latest value.
    value: TicketCell,
    store: Store<Arc<T>>,
    ports: Ports,
}

impl<T> View for Chan<T> {
    type V = WatchView<T>;

    closed spec fn view(&self) -> WatchView<T> {
        WatchView {
            version: self.version,
            value: match held(self.value) {
                Some(ticket) => Some(*self.store@[ticket]),
                None => None,
            },
            ports: self.ports@,
        }
    }
}

impl<T> Chan<T> {
    /// The ticket names a value.
    pub closed spec fn wf(&self) -> bool {
        &&& self.store.wf()
        &&& held(self.value) matches Some(ticket) ==> self.store@.contains_key(ticket)
    }
}

/// A sender handle.
pub struct Sender<T> {
    _message: PhantomData<T>,
}

/// A receiver handle, with its cursor.
pub struct Receiver<T> {
    pub cursor: Cursor,
    pub message: PhantomData<T>,
}

/// A wait for a change; goes into [`Receiver::recheck`] and [`Receiver::resume`].
pub struct ChangeWait {
    guard: RecvWaiterGuard,
    baseline: usize,
}

impl ChangeWait {
    /// The selection cell of the wait.
    pub closed spec fn cell(&self) -> u64 {
        self.guard.cell()
    }

    /// The version at which the wait began.
    pub closed spec fn baseline(&self) -> usize {
        self.baseline
    }
}

/// Creates a channel without a value, with its first sender and receiver.
pub fn channel<T>() -> (r: (Chan<T>, Sender<T>, Receiver<T>))
    ensures
        r.0.wf(),
        r.0@ == WatchView::<T>::fresh(),
        r.2.cursor == (Cursor { version: 0, armed: false }),
        r.2.cursor == Cursor::fresh(),
{
    let chan = Chan {
        version: 0,
        value: TicketCell::empty(),
        store: Store::new(),
        ports: Ports::new(),
    };
    let rx = Receiver { cursor: Cursor { version: 0, armed: false }, message: PhantomData };
    (chan, Sender { _message: PhantomData }, rx)
}

impl<T> Sender<T> {
    /// Another handle on the same channel.
    pub fn clone(&self, chan: &mut Chan<T>) -> (r: Sender<T>)
        requires
            old(chan).wf(),
            old(chan)@.ports.senders < usize::MAX,
        ensures
            final(chan).wf(),
            final(chan)@ == old(chan)@.sender_added(),
    {
        chan.ports.add_sender();
        Sender { _message: PhantomData }
    }

    /// Gives the handle up. With the last sender, everybody who waits is woken.
    pub fn close(self, chan: &mut Chan<T>, board: &mut Board)
        requires
            old(chan).wf(),
            old(board).wf(),
            old(chan)@.ports.senders > 0,
        ensures
            final(chan).wf(),
            final(board).wf(),
            final(chan)@ == old(chan)@.sender_closed(),
            final(board)@ == old(chan)@.ports.sender_closed_wakes(old(board)@),
    {
        chan.ports.close_sender(board);
    }

    /// Makes `value` the latest value and wakes everybody who waits; hands it back if all receivers
    /// are gone.
    pub fn send(&self, chan: &mut Chan<T>, board: &mut Board, value: T) -> (r: Result<
        (),
        SendError<T>,
    >)
        requires
            old(chan).wf(),
            old(board).wf(),
        ensures
            final(chan).wf(),
            final(board).wf(),
            r == (if old(chan)@.ports.receivers > 0 {
                Ok(())
            } else {
                Err(SendError(value))
            }),
            r == old(chan)@.send_result(value),
            final(chan)@ == old(chan)@.sent(value),
            final(board)@ == old(chan)@.sent_wakes(old(board)@),
    {
        match self.send_replacing(chan, board, value) {
            Ok(_) => Ok(()),
            Err(e) => Err(e),
        }
    }

    /// As [`Sender::send`], but hands the value out that was the latest before, so that the caller
    /// can drop it where its destructor does no harm.
    pub fn send_replacing(&self, chan: &mut Chan<T>, board: &mut Board, value: T) -> (r: Result<
        Option<Arc<T>>,
        SendError<T>,
    >)
        requires
            old(chan).wf(),
            old(board).wf(),
        ensures
            final(chan).wf(),
            final(board).wf(),
            match r {
                Ok(replaced) => old(chan)@.ports.receivers > 0 && old(chan)@.value == shared_value(
                    replaced,
                ),
                Err(e) => old(chan)@.ports.receivers == 0 && e == SendError(value),
            },
            final(chan)@ == old(chan)@.sent(value),
            final(board)@ == old(chan)@.sent_wakes(old(board)@),
    {
        if self.is_closed(chan) {
            return Err(SendError(value));
        }
        let replaced: Option<Arc<T>> = match chan.value.load_full() {
            Some(stale) => chan.store.take(stale),
            None => None,
        };
        let ticket = chan.store.insert(Arc::new(value));
        chan.value.store(Some(ticket));
        self.bump_version_and_notify(chan, board);
        Ok(replaced)
    }

    /// Announces a change and wakes everybody who waits, but leaves the value as it is.
    pub fn mark_changed(&self, chan: &mut Chan<T>, board: &mut Board) -> (r: Result<
        (),
        SendError<()>,
    >)
        requires
            old(chan).wf(),
            old(board).wf(),
        ensures
            final(chan).wf(),
            final(board).wf(),
            r == (if old(chan)@.ports.receivers > 0 {
                Ok(())
            } else {
                Err(SendError(()))
            }),
            r == old(chan)@.send_result(()),
            final(chan)@ == old(chan)@.marked(),
            final(board)@ == old(chan)@.sent_wakes(old(board)@),
    {
        if self.is_closed(chan) {
            return Err(SendError(()));
        }
        self.bump_version_and_notify(chan, board);
        Ok(())
    }

    /// Whether all receivers are gone.
    pub fn is_closed(&self, chan: &Chan<T>) -> (r: bool)
        ensures
            r == (chan@.ports.receivers == 0),
    {
        chan.ports.receiver_count == 0
    }

    fn bump_version_and_notify(&self, chan: &mut Chan<T>, board: &mut Board)
        requires
            old(chan).wf(),
            old(board).wf(),
        ensures
            final(chan).wf(),
            final(board).wf(),
            final(chan)@ == old(chan)@.bumped(),
            final(board)@ == old(chan)@.change_wakes(old(board)@),
    {
        chan.version = chan.version.wrapping_add(1);
        wake_all_recv_waiters(&chan.ports.recv_waiters, board);
        wake_select_all(&mut chan.ports.select_waiters, board);
    }
}

impl<T> Receiver<T> {
    /// There was a change since the cursor was fixed, or all senders are gone.
    pub open spec fn sees_news(&self, s: WatchView<T>) -> bool {
        s.has_news(self.cursor.armed_at(s.version).version)
    }

    /// Another handle on the same channel, with a cursor of its own that starts where this one is.
    pub fn clone(&self, chan: &mut Chan<T>) -> (r: Receiver<T>)
        requires
            old(chan).wf(),
            old(chan)@.ports.receivers < usize::MAX,
        ensures
            final(chan).wf(),
            final(chan)@ == old(chan)@.receiver_added(),
            r.cursor == self.cursor,
            r.cursor == self.cursor.copied(),
    {
        chan.ports.add_receiver();
        Receiver { cursor: self.cursor, message: PhantomData }
    }

    /// Gives the handle up.
    pub fn close(self, chan: &mut Chan<T>)
        requires
            old(chan).wf(),
            old(chan)@.ports.receivers > 0,
        ensures
            final(chan).wf(),
            final(chan)@ == old(chan)@.receiver_closed(),
    {
        let _ = chan.ports.close_receiver();
    }

    /// Fixes the cursor at the current version, unless it was fixed before. The current version.
    fn arm_cursor(&mut self, chan: &Chan<T>) -> (current: usize)
        ensures
            current == chan@.version,
            final(self).cursor == old(self).cursor.armed_at(chan@.version),
            final(self).message == old(self).message,
    {
        let current: usize = chan.version;
        if !self.cursor.armed {
            self.cursor = Cursor { version: current, armed: true };
        }
        current
    }

    /// Waits for a change since `baseline`: reports what is news, or registers `thread` as a
    /// waiter.
    fn await_change_from(
        &mut self,
        chan: &mut Chan<T>,
        board: &mut Board,
        thread: u64,
        baseline: usize,
    ) -> (r: Step<Result<usize, RecvError>, ChangeWait>)
        requires
            old(chan).wf(),
            old(board).wf(),
        ensures
            final(chan).wf(),
            final(board).wf(),
            final(self).message == old(self).message,
            old(chan)@.await_step(
                old(self).cursor,
                old(board)@,
                baseline,
                thread,
                |out: Result<usize, RecvError>| out,
                r,
                final(self).cursor,
                final(chan)@,
                final(board)@,
            ),
    {
        let current: usize = chan.version;
        if current != baseline {
            self.cursor = Cursor { version: current, armed: false };
            return Step::Done(Ok(current));
        }
        if self.is_closed(chan) {
            self.cursor = Cursor { version: self.cursor.version, armed: false };
            return Step::Done(Err(RecvError::Disconnected));
        }
        let cell = board.open_cell();
        let waiter = RecvWaiter::new(0, cell, thread);
        let guard = RecvWaiterGuard::register(waiter, &mut chan.ports.recv_waiters);
        Step::Wait(ChangeWait { guard, baseline })
    }

    /// The latest value, shared; `None` if none was ever sent.
    pub fn borrow_arc(&self, chan: &Chan<T>) -> (r: Option<Arc<T>>)
        requires
            chan.wf(),
        ensures
            chan@.value == shared_value(r),
    {
        match chan.value.load_full() {
            Some(ticket) => match chan.store.get(ticket) {
                Some(value) => Some(share(value)),
                None => None,
            },
            None => None,
        }
    }

    /// A clone of the latest value; `None` if none was ever sent.
    pub fn borrow(&self, chan: &Chan<T>) -> (r: Option<T>) where T: Clone
        requires
            chan.wf(),
        ensures
            r is Some == chan@.value is Some,
            r matches Some(value) ==> cloned(chan@.value->0, value),
            chan@.lends(r),
    {
        match self.borrow_arc(chan) {
            Some(value) => Some((*value).clone()),
            None => None,
        }
    }

    /// Whether all senders are gone.
    pub fn is_closed(&self, chan: &Chan<T>) -> (r: bool)
        ensures
            r == (chan@.ports.senders == 0),
    {
        chan.ports.sender_count == 0
    }

    /// Begins to wait for the next change after now, or finds that all senders are gone.
    ///
    /// Changes before this call do not count, even if the cursor was fixed before them: to consume
    /// such a change use [`Receiver::complete_recv`]. After `Wait` comes [`Receiver::recheck`].
    pub fn changed(&mut self, chan: &mut Chan<T>, board: &mut Board, thread: u64) -> (r: Step<
        Result<(), RecvError>,
        ChangeWait,
    >)
        requires
            old(chan).wf(),
            old(board).wf(),
        ensures
            final(chan).wf(),
            final(board).wf(),
            final(self).message == old(self).message,
            old(chan)@.ports.senders == 0 ==> {
                &&& r == Step::<Result<(), RecvError>, ChangeWait>::Done(
                    Err(RecvError::Disconnected),
                )
                &&& final(self).cursor == old(self).cursor.disarmed()
                &&& final(chan)@ == old(chan)@
                &&& final(board)@ == old(board)@
            },
            old(chan)@.ports.senders > 0 ==> {
                &&& r is Wait
                &&& old(chan)@.await_step(
                    old(self).cursor.armed_at(old(chan)@.version),
                    old(board)@,
                    old(chan)@.version,
                    thread,
                    |out: Result<usize, RecvError>| only_whether(out),
                    r,
                    final(self).cursor,
                    final(chan)@,
                    final(board)@,
                )
            },
            old(chan)@.changed_step(
                old(self).cursor,
                old(board)@,
                thread,
                r,
                final(self).cursor,
                final(chan)@,
                final(board)@,
            ),
    {
        if self.is_closed(chan) {
            self.cursor = Cursor { version: self.cursor.version, armed: false };
            return Step::Done(Err(RecvError::Disconnected));
        }
        let current = self.arm_cursor(chan);
        match self.await_change_from(chan, board, thread, current) {
            Step::Done(Ok(_)) => Step::Done(Ok(())),
            Step::Done(Err(e)) => Step::Done(Err(e)),
            Step::Wait(wait) => Step::Wait(wait),
        }
    }

    /// Looks again after registration, so that what happened in between is not missed.
    ///
    /// After `Wait` the thread parks, and once it is unparked comes [`Receiver::resume`].
    pub fn recheck(
        &mut self,
        chan: &mut Chan<T>,
        board: &mut Board,
        thread: u64,
        wait: ChangeWait,
    ) -> (r: Step<Result<(), RecvError>, ChangeWait>)
        requires
            old(chan).wf(),
            old(board).wf(),
        ensures
            final(chan).wf(),
            final(board).wf(),
            final(self).message == old(self).message,
            old(chan)@.has_news(wait.baseline()) ==> {
                &&& r == Step::<Result<(), RecvError>, ChangeWait>::Done(
                    only_whether(old(chan)@.news(wait.baseline())),
                )
                &&& final(self).cursor == old(chan)@.cursor_after_news(
                    old(self).cursor,
                    wait.baseline(),
                )
                &&& final(chan)@ == old(chan)@.released(wait.cell())
                &&& final(board)@ == old(board)@.closed(wait.cell())
            },
            !old(chan)@.has_news(wait.baseline()) ==> {
                &&& r == Step::<Result<(), RecvError>, ChangeWait>::Wait(wait)
                &&& final(self).cursor == old(self).cursor
                &&& final(chan)@ == old(chan)@
                &&& final(board)@ == old(board)@
            },
            old(chan)@.recheck_step(
                old(self).cursor,
                old(board)@,
                wait,
                r,
                final(self).cursor,
                final(chan)@,
                final(board)@,
            ),
    {
        if chan.version != wait.baseline || chan.ports.sender_count == 0 {
            self.resume(chan, board, thread, wait)
        } else {
            Step::Wait(wait)
        }
    }

    /// Goes on after the thread was unparked: undoes the registration and begins anew, still with
    /// the version at which the wait began.
    pub fn resume(
        &mut self,
        chan: &mut Chan<T>,
        board: &mut Board,
        thread: u64,
        wait: ChangeWait,
    ) -> (r: Step<Result<(), RecvError>, ChangeWait>)
        requires
            old(chan).wf(),
            old(board).wf(),
        ensures
            final(chan).wf(),
            final(board).wf(),
            final(self).message == old(self).message,
            old(chan)@.released(wait.cell()).await_step(
                old(self).cursor,
                old(board)@.closed(wait.cell()),
                wait.baseline(),
                thread,
                |out: Result<usize, RecvError>| only_whether(out),
                r,
                final(self).cursor,
                final(chan)@,
                final(board)@,
            ),
    {
        let baseline: usize = wait.baseline;
        wait.guard.release(&mut chan.ports.recv_waiters, board);
        match self.await_change_from(chan, board, thread, baseline) {
            Step::Done(Ok(_)) => Step::Done(Ok(())),
            Step::Done(Err(e)) => Step::Done(Err(e)),
            Step::Wait(wait) => Step::Wait(wait),
        }
    }

    /// Consumes a change after this arm of a select was selected: any change since the version at
    /// which the cursor stands, or the next one if there was none.
    pub fn complete_recv(&mut self, chan: &mut Chan<T>, board: &mut Board, thread: u64) -> (r: Step<
        Result<(), RecvError>,
        ChangeWait,
    >)
        requires
            old(chan).wf(),
            old(board).wf(),
        ensures
            final(chan).wf(),
            final(board).wf(),
            final(self).message == old(self).message,
            old(chan)@.await_step(
                old(self).cursor,
                old(board)@,
                old(self).cursor.version,
                thread,
                |out: Result<usize, RecvError>| only_whether(out),
                r,
                final(self).cursor,
                final(chan)@,
                final(board)@,
            ),
    {
        let baseline: usize = self.cursor.version;
        match self.await_change_from(chan, board, thread, baseline) {
            Step::Done(Ok(_)) => Step::Done(Ok(())),
            Step::Done(Err(e)) => Step::Done(Err(e)),
            Step::Wait(wait) => Step::Wait(wait),
        }
    }
}

// ── Select ───────────────────────────────────────────────────────────────────
impl<T> Channels for Chan<T> {
    type State = WatchView<T>;

    type Port = Port;

    open spec fn state(&self) -> WatchView<T> {
        self@
    }

    open spec fn valid(&self) -> bool {
        self.wf()
    }

    open spec fn has_port(s: WatchView<T>, port: Port) -> bool {
        port == Port::Recv
    }

    open spec fn stack(s: WatchView<T>, port: Port) -> Seq<SelectWaiter> {
        match port {
            Port::Recv => s.ports.select_waiters,
            Port::Send => Seq::empty(),
        }
    }

    open spec fn with_stack(s: WatchView<T>, port: Port, waiters: Seq<SelectWaiter>) -> WatchView<
        T,
    > {
        match port {
            Port::Recv => WatchView {
                ports: PortsView { select_waiters: waiters, ..s.ports },
                ..s
            },
            Port::Send => s,
        }
    }

    proof fn stacks_are_independent(
        s: WatchView<T>,
        port: Port,
        other: Port,
        waiters: Seq<SelectWaiter>,
    ) {
    }
}

impl<T> ArmOpTrait for Receiver<T> {
    type World = Chan<T>;

    open spec fn fits(&self, s: WatchView<T>) -> bool {
        true
    }

    open spec fn ready(&self, s: WatchView<T>) -> bool {
        self.sees_news(s)
    }

    open spec fn looked(&self, s: WatchView<T>) -> Self {
        if s.ports.senders == 0 {
            *self
        } else {
            Receiver { cursor: self.cursor.armed_at(s.version), ..*self }
        }
    }

    open spec fn enrolled(&self, s: WatchView<T>) -> Self {
        Receiver { cursor: self.cursor.armed_at(s.version), ..*self }
    }

    open spec fn enlists(&self, s: WatchView<T>) -> bool {
        !self.ready(s)
    }

    open spec fn port(&self) -> Port {
        Port::Recv
    }

    proof fn readiness_is_stable(&self, s: WatchView<T>, port: Port, waiters: Seq<SelectWaiter>) {
    }

    fn is_ready(&mut self, world: &Chan<T>) -> (r: bool) {
        if world.ports.sender_count == 0 {
            return true;
        }
        let current = self.arm_cursor(world);
        current != self.cursor.version
    }

    fn register_select(&mut self, world: &mut Chan<T>, case_id: usize, selected: u64, thread: u64) {
        let current = self.arm_cursor(world);
        if world.ports.sender_count == 0 || current != self.cursor.version {
            return ;
        }
        push_select_waiter(
            SelectWaiter::new(case_id, selected, thread),
            &mut world.ports.select_waiters,
        );
    }

    fn abort_select(&self, world: &mut Chan<T>, selected: u64) {
        abort_select_waiters(&mut world.ports.select_waiters, selected);
    }
}

impl<T> SelectableReceiver for Receiver<T> {
    type Output = ();

    type Pending = ChangeWait;

    open spec fn completes(
        before: (Self, WatchView<T>, BoardView),
        thread: u64,
        after: (Self, WatchView<T>, BoardView),
        r: Step<Result<(), RecvError>, ChangeWait>,
    ) -> bool {
        &&& after.0.message == before.0.message
        &&& before.1.await_step(
            before.0.cursor,
            before.2,
            before.0.cursor.version,
            thread,
            |out: Result<usize, RecvError>| only_whether(out),
            r,
            after.0.cursor,
            after.1,
            after.2,
        )
    }

    proof fn law_ready_arm_completes(
        before: (Self, WatchView<T>, BoardView),
        thread: u64,
        after: (Self, WatchView<T>, BoardView),
        r: Step<Result<(), RecvError>, ChangeWait>,
    ) {
    }

    proof fn law_idle_arm_waits(
        before: (Self, WatchView<T>, BoardView),
        thread: u64,
        after: (Self, WatchView<T>, BoardView),
        r: Step<Result<(), RecvError>, ChangeWait>,
    ) {
    }

    fn complete(&mut self, world: &mut Chan<T>, board: &mut Board, thread: u64) -> (r: Step<
        Result<(), RecvError>,
        ChangeWait,
    >) {
        self.complete_recv(world, board, thread)
    }
}

impl<T> ArmOpTrait for Sender<T> {
    type World = Chan<T>;

    open spec fn fits(&self, s: WatchView<T>) -> bool {
        true
    }

    open spec fn ready(&self, s: WatchView<T>) -> bool {
        true
    }

    open spec fn looked(&self, s: WatchView<T>) -> Self {
        *self
    }

    open spec fn enrolled(&self, s: WatchView<T>) -> Self {
        *self
    }

    open spec fn enlists(&self, s: WatchView<T>) -> bool {
        false
    }

    open spec fn port(&self) -> Port {
        Port::Send
    }

    proof fn readiness_is_stable(&self, s: WatchView<T>, port: Port, waiters: Seq<SelectWaiter>) {
    }

    /// The latest value can always be overwritten.
    fn is_ready(&mut self, world: &Chan<T>) -> (r: bool) {
        true
    }

    fn register_select(&mut self, world: &mut Chan<T>, case_id: usize, selected: u64, thread: u64) {
    }

    fn abort_select(&self, world: &mut Chan<T>, selected: u64) {
    }
}

impl<T: Send> SelectableSender for Sender<T> {
    type Input = T;

    type Pending = ();

    open spec fn sends(
        &self,
        before: (WatchView<T>, BoardView),
        value: T,
        thread: u64,
        after: (WatchView<T>, BoardView),
        r: Step<Result<(), SendError<T>>, ()>,
    ) -> bool {
        &&& r == Step::<Result<(), SendError<T>>, ()>::Done(
            if before.0.ports.receivers > 0 {
                Ok(())
            } else {
                Err(SendError(value))
            },
        )
        &&& after.0 == before.0.sent(value)
        &&& after.1 == before.0.sent_wakes(before.1)
    }

    proof fn law_send_arm_is_honest(
        &self,
        before: (WatchView<T>, BoardView),
        value: T,
        thread: u64,
        after: (WatchView<T>, BoardView),
        r: Step<Result<(), SendError<T>>, ()>,
    ) {
    }

    fn complete_send(&self, world: &mut Chan<T>, board: &mut Board, thread: u64, value: T) -> (r:
        Step<Result<(), SendError<T>>, ()>) {
        Step::Done(self.send(world, board, value))
    }
}

// ── Laws ─────────────────────────────────────────────────────────────────────
/// Only the latest value is kept: whatever was sent before, a receiver sees what was sent last.
pub proof fn law_latest_value_wins<T>(s: WatchView<T>, first: T, last: T)
    requires
        s.ports.receivers > 0,
    ensures
        s.sent(first).value == Some(first),
        s.sent(first).sent(last).value == Some(last),
{
}

/// Announcing a change moves the version and wakes exactly as a send does, but keeps the value.
pub proof fn law_mark_changed_keeps_the_value<T>(s: WatchView<T>, value: T)
    ensures
        s.marked().value == s.value,
        s.marked().version == s.sent(value).version,
        s.marked().ports == s.sent(value).ports,
{
}

/// No change is missed: whoever waits since the current version has news after any send or
/// announcement, and everybody who waits is unparked by it.
pub proof fn law_every_waiter_notices_a_change<T>(s: WatchView<T>, b: BoardView, value: T)
    requires
        s.ports.receivers > 0,
    ensures
        s.sent(value).has_news(s.version),
        s.sent(value).news(s.version) == Ok::<usize, RecvError>(s.sent(value).version),
        s.marked().has_news(s.version),
        s.sent_wakes(b).unparked == b.unparked + threads_of(s.ports.recv_waiters) + threads_of(
            pending(s.ports.select_waiters),
        ),
{
    law_wake_all_unparks_everyone(s.ports.recv_waiters, b);
    law_wake_all_unparks_everyone(
        pending(s.ports.select_waiters),
        woken_all(s.ports.recv_waiters, b),
    );
}

/// Cursors are independent: when one receiver consumes a change, another whose cursor was fixed
/// before the change is still ready.
pub proof fn law_cursors_are_independent<T>(
    s: WatchView<T>,
    value: T,
    consumer: Receiver<T>,
    other: Receiver<T>,
)
    requires
        s.ports.receivers > 0,
        other.cursor.armed,
        other.cursor.version == s.version,
    ensures
        s.ports.senders > 0 ==> !other.ready(s),
        other.ready(s.sent(value)),
        s.sent(value).cursor_after_news(consumer.cursor, s.version) == (Cursor {
            version: s.sent(value).version,
            armed: false,
        }),
{
}

/// A consumed change is not reported again: right after it the receiver is not ready, until the
/// next change or disconnection.
pub proof fn law_consumed_change_is_old_news<T>(
    s: WatchView<T>,
    cursor: Cursor,
    baseline: usize,
    rx: Receiver<T>,
)
    requires
        s.ports.senders > 0,
        s.version != baseline,
        rx.cursor == s.cursor_after_news(cursor, baseline),
    ensures
        !rx.ready(s),
        !rx.looked(s).ready(s),
{
}

/// A receiver that has looked and found no news is ready after the next change.
pub proof fn law_looking_fixes_the_baseline<T>(s: WatchView<T>, rx: Receiver<T>, value: T)
    requires
        s.ports.senders > 0,
        s.ports.receivers > 0,
        !rx.ready(s),
    ensures
        rx.looked(s).ready(s.sent(value)),
        rx.looked(s).ready(s.marked()),
{
}

/// A change that happened before the last sender went is reported before the disconnection.
pub proof fn law_change_before_disconnection<T>(s: WatchView<T>, baseline: usize)
    requires
        s.ports.senders == 0,
    ensures
        s.has_news(baseline),
        s.news(baseline) == (if s.version != baseline {
            Ok(s.version)
        } else {
            Err(RecvError::Disconnected)
        }),
{
}

// ── What the operations do ───────────────────────────────────────────────────
/// A change of the value, or the announcement of one.
pub enum Change<T> {
    Send(T),
    Mark,
}

/// After a number of changes, in order.
pub open spec fn after_changes<T>(s: WatchView<T>, changes: Seq<Change<T>>) -> WatchView<T>
    decreases changes.len(),
{
    if changes.len() == 0 {
        s
    } else {
        let before = after_changes(s, changes.drop_last());
        match changes.last() {
            Change::Send(value) => before.sent(value),
            Change::Mark => before.marked(),
        }
    }
}

/// No change is forgotten: after any number of sends and announcements, up to the largest number of
/// the machine word, the version differs from every one before the first of them, so whoever waits
/// since then has news, however many changes there were. The version counts the changes, and the
/// value is the one that was sent last.
pub proof fn law_versions_count_changes<T>(s: WatchView<T>, changes: Seq<Change<T>>)
    requires
        s.ports.receivers > 0,
    ensures
        ({
            let after = after_changes(s, changes);
            &&& after.version as int == (s.version + changes.len()) % (usize::MAX + 1)
            &&& 0 < changes.len() <= usize::MAX ==> {
                &&& after.version != s.version
                &&& after.has_news(s.version)
                &&& after.news(s.version) == Ok::<usize, RecvError>(after.version)
            }
            &&& changes.len() > 0 && changes.last() is Send ==> after.value == Some(
                changes.last()->Send_0,
            )
            &&& (forall|i: int| 0 <= i < changes.len() ==> #[trigger] changes[i] is Mark)
                ==> after.value == s.value
            &&& after.ports.receivers == s.ports.receivers
            &&& after.ports.senders == s.ports.senders
        }),
    decreases changes.len(),
{
    let word: int = usize::MAX + 1;
    if changes.len() == 0 {
        vstd::arithmetic::div_mod::lemma_small_mod(s.version as nat, word as nat);
    } else {
        let init = changes.drop_last();
        law_versions_count_changes(s, init);
        let before = after_changes(s, init);
        let sum: int = s.version + init.len();
        assert((sum + 1) % word == (if before.version == usize::MAX {
            0
        } else {
            before.version + 1
        })) by {
            vstd::arithmetic::div_mod::lemma_fundamental_div_mod(sum, word);
            let q = sum / word;
            if before.version == usize::MAX {
                assert((q + 1) * word == q * word + word) by (nonlinear_arith);
                assert(word * q == q * word) by (nonlinear_arith);
                vstd::arithmetic::div_mod::lemma_fundamental_div_mod_converse(
                    sum + 1,
                    word,
                    q + 1,
                    0,
                );
            } else {
                assert(word * q == q * word) by (nonlinear_arith);
                vstd::arithmetic::div_mod::lemma_fundamental_div_mod_converse(
                    sum + 1,
                    word,
                    q,
                    before.version + 1,
                );
            }
        }
        assert(forall|i: int| 0 <= i < init.len() ==> init[i] == changes[i]);
        if forall|i: int| 0 <= i < changes.len() ==> #[trigger] changes[i] is Mark {
            assert(changes[changes.len() - 1] is Mark);
            assert forall|i: int| 0 <= i < init.len() implies #[trigger] init[i] is Mark by {
                assert(changes[i] is Mark);
            }
        }
        if changes.len() <= usize::MAX {
            lemma_wrapped_sum_differs(s.version as int, changes.len() as int, word);
        }
    }
}

proof fn lemma_wrapped_sum_differs(start: int, n: int, word: int)
    requires
        0 <= start < word,
        0 < n < word,
    ensures
        (start + n) % word != start,
{
    if start + n < word {
        vstd::arithmetic::div_mod::lemma_small_mod((start + n) as nat, word as nat);
    } else {
        vstd::arithmetic::div_mod::lemma_fundamental_div_mod_converse(
            start + n,
            word,
            1,
            start + n - word,
        );
    }
}

/// A new channel has no value, one sender, one receiver and nobody waiting.
pub proof fn law_new_channel_is_empty<T>()
    ensures
        WatchView::<T>::fresh().value is None,
        WatchView::<T>::fresh().ports.senders == 1,
        WatchView::<T>::fresh().ports.receivers == 1,
        WatchView::<T>::fresh().ports.recv_waiters.len() == 0,
        WatchView::<T>::fresh().ports.select_waiters.len() == 0,
{
}

/// A send or an announcement with a receiver left moves the version on by one, modulo the machine
/// word; a send makes its value the latest, an announcement keeps it. Everybody who waits is woken
/// and the recv arms are off their stack. With no receiver left nothing changes, nobody is woken
/// and the value is handed back.
pub proof fn law_change_moves_the_version<T>(s: WatchView<T>, b: BoardView, value: T)
    ensures
        s.ports.receivers > 0 ==> {
            &&& s.sent(value).version as int == (s.version + 1) % (usize::MAX + 1)
            &&& s.sent(value).value == Some(value)
            &&& s.marked().version == s.sent(value).version
            &&& s.marked().value == s.value
            &&& s.marked().ports == s.sent(value).ports
            &&& s.sent(value).ports.select_waiters.len() == 0
            &&& s.sent_wakes(b) == woken_all(
                s.ports.recv_waiters + pending(s.ports.select_waiters),
                b,
            )
        },
        s.ports.receivers == 0 ==> s.sent(value) == s && s.marked() == s && s.sent_wakes(b) == b,
        s.ports.receivers > 0 ==> s.send_result(value) == Ok::<(), SendError<T>>(()),
        s.ports.receivers == 0 ==> s.send_result(value) == Err::<(), SendError<T>>(
            SendError(value),
        ),
        s.sent(value).ports.recv_waiters == s.ports.recv_waiters,
        s.sent(value).ports.senders == s.ports.senders,
        s.sent(value).ports.receivers == s.ports.receivers,
        s.bumped().version != s.version,
        s.bumped().value == s.value,
        s.change_wakes(b) == woken_all(s.ports.recv_waiters + pending(s.ports.select_waiters), b),
{
    let word: int = usize::MAX + 1;
    if s.version < usize::MAX {
        vstd::arithmetic::div_mod::lemma_small_mod((s.version + 1) as nat, word as nat);
    } else {
        vstd::arithmetic::div_mod::lemma_fundamental_div_mod_converse(s.version + 1, word, 1, 0);
    }
    lemma_woken_all_in_two_parts(s.ports.recv_waiters, pending(s.ports.select_waiters), b);
}

/// There is news exactly if the version differs from the baseline or no sender is left; a change is
/// reported as such, with the current version, and the cursor then stands there; a disconnection is
/// reported only if nothing has changed. Either way the cursor is no longer fixed.
pub proof fn law_news_is_a_change_or_the_end<T>(s: WatchView<T>, cursor: Cursor, baseline: usize)
    ensures
        s.has_news(baseline) <==> s.version != baseline || s.ports.senders == 0,
        s.version != baseline ==> s.news(baseline) == Ok::<usize, RecvError>(s.version),
        s.version == baseline ==> s.news(baseline) == Err::<usize, RecvError>(
            RecvError::Disconnected,
        ),
        s.version != baseline ==> s.cursor_after_news(cursor, baseline).version == s.version,
        s.version == baseline ==> s.cursor_after_news(cursor, baseline).version == cursor.version,
        !s.cursor_after_news(cursor, baseline).armed,
        cursor.armed ==> cursor.armed_at(s.version) == cursor,
        !cursor.armed ==> cursor.armed_at(s.version).version == s.version && cursor.armed_at(
            s.version,
        ).armed,
        cursor.disarmed().version == cursor.version,
        !cursor.disarmed().armed,
{
}

/// What a step of waiting for a change comes to: if the version differs from the baseline, the
/// change; if not and no sender is left, the disconnection; else a wait on a fresh cell, with the
/// thread at the end of the list, that remembers the baseline. News changes nothing but the cursor.
pub proof fn law_waiting_ends_with_news<T, R>(
    s: WatchView<T>,
    cursor: Cursor,
    b: BoardView,
    baseline: usize,
    thread: u64,
    done: spec_fn(Result<usize, RecvError>) -> R,
    r: Step<R, ChangeWait>,
    cursor_after: Cursor,
    after: WatchView<T>,
    b_after: BoardView,
)
    requires
        s.await_step(cursor, b, baseline, thread, done, r, cursor_after, after, b_after),
    ensures
        s.version != baseline ==> {
            &&& r == Step::<R, ChangeWait>::Done(done(Ok(s.version)))
            &&& cursor_after == (Cursor { version: s.version, armed: false })
        },
        s.version == baseline && s.ports.senders == 0 ==> {
            &&& r == Step::<R, ChangeWait>::Done(done(Err(RecvError::Disconnected)))
            &&& cursor_after == (Cursor { version: cursor.version, armed: false })
        },
        s.version != baseline || s.ports.senders == 0 ==> after == s && b_after == b,
        s.version == baseline && s.ports.senders > 0 ==> {
            &&& r is Wait
            &&& r->Wait_0.baseline() == baseline
            &&& !b.cells.contains_key(r->Wait_0.cell())
            &&& cursor_after == cursor
            &&& after.version == s.version
            &&& after.value == s.value
            &&& after.ports.senders == s.ports.senders
            &&& after.ports.receivers == s.ports.receivers
            &&& after.ports.select_waiters == s.ports.select_waiters
            &&& after.ports.recv_waiters == s.ports.recv_waiters.push(
                RecvWaiter { case_id: 0, selected: r->Wait_0.cell(), thread },
            )
            &&& b_after.cells == b.cells.insert(r->Wait_0.cell(), usize::MAX)
            &&& b_after.unparked == b.unparked
            &&& b_after.turn == b.turn
        },
        only_whether(Ok(s.version)) == Ok::<(), RecvError>(()),
        only_whether(Err(RecvError::Disconnected)) == Err::<(), RecvError>(
            RecvError::Disconnected,
        ),
{
}

/// A wait for the next change begins at the current version, so that earlier changes do not end it:
/// it reports the disconnection if no sender is left, and else always waits. The cursor is fixed at
/// the current version unless it was fixed before.
pub proof fn law_wait_begins_now<T>(
    s: WatchView<T>,
    cursor: Cursor,
    b: BoardView,
    thread: u64,
    r: Step<Result<(), RecvError>, ChangeWait>,
    cursor_after: Cursor,
    after: WatchView<T>,
    b_after: BoardView,
)
    requires
        s.changed_step(cursor, b, thread, r, cursor_after, after, b_after),
    ensures
        s.ports.senders == 0 <==> r is Done,
        s.ports.senders == 0 ==> {
            &&& r == Step::<Result<(), RecvError>, ChangeWait>::Done(Err(RecvError::Disconnected))
            &&& cursor_after == (Cursor { version: cursor.version, armed: false })
            &&& after == s
            &&& b_after == b
        },
        s.ports.senders > 0 ==> {
            &&& r->Wait_0.baseline() == s.version
            &&& !b.cells.contains_key(r->Wait_0.cell())
            &&& cursor_after.armed
            &&& cursor_after.version == (if cursor.armed {
                cursor.version
            } else {
                s.version
            })
            &&& after.version == s.version
            &&& after.value == s.value
            &&& after.ports.senders == s.ports.senders
            &&& after.ports.receivers == s.ports.receivers
            &&& after.ports.select_waiters == s.ports.select_waiters
            &&& after.ports.recv_waiters == s.ports.recv_waiters.push(
                RecvWaiter { case_id: 0, selected: r->Wait_0.cell(), thread },
            )
            &&& b_after.cells == b.cells.insert(r->Wait_0.cell(), usize::MAX)
            &&& b_after.unparked == b.unparked
            &&& b_after.turn == b.turn
        },
{
}

/// The second look ends the wait exactly if the version differs from the baseline or no sender is
/// left, and a change comes before a disconnection. Then the cell is closed and the wait is off the
/// list; else the very same wait goes on and nothing changes.
pub proof fn law_second_look_ends_with_news<T>(
    s: WatchView<T>,
    cursor: Cursor,
    b: BoardView,
    wait: ChangeWait,
    r: Step<Result<(), RecvError>, ChangeWait>,
    cursor_after: Cursor,
    after: WatchView<T>,
    b_after: BoardView,
)
    requires
        s.recheck_step(cursor, b, wait, r, cursor_after, after, b_after),
    ensures
        r is Done <==> s.version != wait.baseline() || s.ports.senders == 0,
        s.version != wait.baseline() ==> {
            &&& r == Step::<Result<(), RecvError>, ChangeWait>::Done(Ok(()))
            &&& cursor_after == (Cursor { version: s.version, armed: false })
        },
        s.version == wait.baseline() && s.ports.senders == 0 ==> {
            &&& r == Step::<Result<(), RecvError>, ChangeWait>::Done(Err(RecvError::Disconnected))
            &&& cursor_after == (Cursor { version: cursor.version, armed: false })
        },
        r is Done ==> {
            &&& after == s.released(wait.cell())
            &&& b_after.cells == b.cells.remove(wait.cell())
            &&& b_after.unparked == b.unparked
            &&& b_after.turn == b.turn
        },
        s.version == wait.baseline() && s.ports.senders > 0 ==> {
            &&& r == Step::<Result<(), RecvError>, ChangeWait>::Wait(wait)
            &&& cursor_after == cursor
            &&& after == s
            &&& b_after == b
        },
{
}

/// The first receiver of a new channel has no news, and has some after the first change. A clone
/// has news exactly when the receiver it was made from has, and is fixed exactly if that one is.
pub proof fn law_clone_sees_the_same_news<T>(s: WatchView<T>, cursor: Cursor, value: T)
    ensures
        !WatchView::<T>::fresh().has_news(Cursor::fresh().version),
        WatchView::<T>::fresh().sent(value).has_news(Cursor::fresh().version),
        WatchView::<T>::fresh().marked().has_news(Cursor::fresh().version),
        !Cursor::fresh().armed,
        s.has_news(cursor.copied().version) <==> s.has_news(cursor.version),
        cursor.copied().version == cursor.version,
        cursor.copied().armed == cursor.armed,
{
}

/// A borrow gives nothing before the first value, and after a send with a receiver left a clone of
/// the very value sent; an announcement does not change what a borrow may give.
pub proof fn law_borrow_gives_the_latest<T: Clone>(s: WatchView<T>, value: T, r: Option<T>)
    ensures
        WatchView::<T>::fresh().lends(r) <==> r is None,
        s.ports.receivers > 0 ==> (s.sent(value).lends(r) <==> r is Some && cloned(value, r->0)),
        s.ports.receivers == 0 ==> (s.sent(value).lends(r) <==> s.lends(r)),
        s.marked().lends(r) <==> s.lends(r),
{
}

/// Waits and handles change only what is theirs, never the version or the value.
pub proof fn law_handles_leave_the_value<T>(s: WatchView<T>, waiter: RecvWaiter, cell: u64)
    ensures
        s.waiting(waiter) == (WatchView {
            version: s.version,
            value: s.value,
            ports: s.ports.waiting(waiter),
        }),
        s.released(cell) == (WatchView {
            version: s.version,
            value: s.value,
            ports: s.ports.released(cell),
        }),
        s.sender_added() == (WatchView {
            version: s.version,
            value: s.value,
            ports: s.ports.sender_added(),
        }),
        s.sender_closed() == (WatchView {
            version: s.version,
            value: s.value,
            ports: s.ports.sender_closed(),
        }),
        s.receiver_added() == (WatchView {
            version: s.version,
            value: s.value,
            ports: s.ports.receiver_added(),
        }),
        s.receiver_closed() == (WatchView {
            version: s.version,
            value: s.value,
            ports: s.ports.receiver_closed(),
        }),
{
}

/// A recv arm is ready exactly if no sender is left, or its cursor is fixed at another version than
/// the current one; a first look fixes the cursor at the current version and later ones leave it.
/// It leaves a waiter exactly if it is not ready. Its completion reports a change since the cursor.
pub proof fn law_recv_arm_watches<T>(
    rx: Receiver<T>,
    s: WatchView<T>,
    b: BoardView,
    thread: u64,
    after: (Receiver<T>, WatchView<T>, BoardView),
    r: Step<Result<(), RecvError>, ChangeWait>,
)
    ensures
        rx.ready(s) <==> s.ports.senders == 0 || (rx.cursor.armed && rx.cursor.version
            != s.version),
        rx.enlists(s) <==> s.ports.senders > 0 && (!rx.cursor.armed || rx.cursor.version
            == s.version),
        rx.fits(s),
        rx.port() == Port::Recv,
        rx.cursor.armed || s.ports.senders == 0 ==> rx.looked(s) == rx,
        !rx.cursor.armed && s.ports.senders > 0 ==> rx.looked(s).cursor == (Cursor {
            version: s.version,
            armed: true,
        }),
        rx.cursor.armed ==> rx.enrolled(s) == rx,
        !rx.cursor.armed ==> rx.enrolled(s).cursor == (Cursor { version: s.version, armed: true }),
        Receiver::<T>::completes((rx, s, b), thread, after, r) ==> {
            &&& s.version != rx.cursor.version ==> {
                &&& r == Step::<Result<(), RecvError>, ChangeWait>::Done(Ok(()))
                &&& after.0.cursor == (Cursor { version: s.version, armed: false })
                &&& after.1 == s
                &&& after.2 == b
            }
            &&& s.version == rx.cursor.version && s.ports.senders == 0 ==> {
                &&& r == Step::<Result<(), RecvError>, ChangeWait>::Done(
                    Err(RecvError::Disconnected),
                )
                &&& !after.0.cursor.armed
                &&& after.1 == s
                &&& after.2 == b
            }
            &&& s.version == rx.cursor.version && s.ports.senders > 0 ==> {
                &&& r is Wait
                &&& r->Wait_0.baseline() == rx.cursor.version
                &&& after.0.cursor == rx.cursor
                &&& after.1.version == s.version
                &&& after.1.value == s.value
                &&& after.1.ports.recv_waiters.len() == s.ports.recv_waiters.len() + 1
            }
        },
{
}

/// A send arm is always ready, and its completion is a send: its value is the latest then, or comes
/// back if no receiver is left.
pub proof fn law_send_arm_sends<T: Send>(
    tx: Sender<T>,
    s: WatchView<T>,
    b: BoardView,
    value: T,
    thread: u64,
    after: (WatchView<T>, BoardView),
    r: Step<Result<(), SendError<T>>, ()>,
)
    ensures
        tx.ready(s),
        !tx.enlists(s),
        tx.fits(s),
        tx.looked(s) == tx,
        tx.enrolled(s) == tx,
        tx.port() == Port::Send,
        tx.sends((s, b), value, thread, after, r) ==> {
            &&& s.ports.receivers > 0 ==> {
                &&& r == Step::<Result<(), SendError<T>>, ()>::Done(Ok(()))
                &&& after.0.value == Some(value)
                &&& after.0.version != s.version
                &&& after.0.ports.receivers == s.ports.receivers
                &&& after.0.ports.senders == s.ports.senders
            }
            &&& s.ports.receivers == 0 ==> {
                &&& r == Step::<Result<(), SendError<T>>, ()>::Done(Err(SendError(value)))
                &&& after == (s, b)
            }
        },
{
}

/// As a world of a select, a channel shows its contents, with a stack of waiters at the recv side
/// only; and a shared handle stands for the value behind it.
pub proof fn law_channel_is_its_own_world<T>(
    chan: Chan<T>,
    s: WatchView<T>,
    waiters: Seq<SelectWaiter>,
    shared: Arc<T>,
)
    ensures
        chan.state() == chan@,
        chan.valid() == chan.wf(),
        <Chan<T> as Channels>::has_port(s, Port::Recv),
        !<Chan<T> as Channels>::has_port(s, Port::Send),
        <Chan<T> as Channels>::stack(s, Port::Recv) == s.ports.select_waiters,
        <Chan<T> as Channels>::with_stack(s, Port::Recv, waiters) == (WatchView {
            ports: PortsView { select_waiters: waiters, ..s.ports },
            ..s
        }),
        shared_value(Some(shared)) == Some(*shared),
        shared_value(None::<Arc<T>>) == None::<T>,
{
}

} // verus!
