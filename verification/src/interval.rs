//! Repeating timer as a receiver.
//!
//! An [`Interval`] yields one timestamp per tick. At most one tick is pending: a tick that fires
//! while the previous one was not read yet is discarded, and the schedule goes on regardless. All
//! clones of an interval share its ticks; each tick goes to exactly one of them.
//!
//! The runtime drives the [`Ticker`]: it sleeps as long as [`Ticker::delay`] says and then calls
//! [`Ticker::fire`], until that returns no ticker any more. Timestamps and durations are counted in
//! nanoseconds.
use vstd::prelude::*;

use crate::bounded_mpmc::{channel, Chan, Receiver, Sender};
use crate::buffer::BufferView;
use crate::error::RecvError;
use crate::ports::{Port, Step};
use crate::selectable::{ArmOpTrait, SelectableReceiver};
use crate::waiter::{Board, BoardView, RecvWaiterGuard, SelectWaiter};

verus! {

/// A receiver of ticks.
pub struct Interval {
    ticks: Receiver<u64>,
}

/// Where a ticker stands in its schedule.
#[verifier::ext_equal]
pub struct TickerView {
    /// When the next tick is due.
    pub next_tick: u64,
    /// The time between two ticks.
    pub period: u64,
}

impl TickerView {
    /// At the beginning of its schedule.
    pub open spec fn starting(start: u64, period: u64) -> TickerView {
        TickerView { next_tick: start, period }
    }

    /// How long it takes from `now` until the next tick is due.
    pub open spec fn delay(self, now: u64) -> u64 {
        if self.next_tick > now {
            (self.next_tick - now) as u64
        } else {
            0
        }
    }

    /// After a tick; `None` if the schedule runs past the end of time.
    pub open spec fn moved_on(self) -> Option<TickerView> {
        if self.next_tick + self.period <= u64::MAX {
            Some(TickerView { next_tick: (self.next_tick + self.period) as u64, ..self })
        } else {
            None
        }
    }

    /// The ticker and the channel after firing at time `now`. Before the tick is due nothing
    /// happens. Then the tick is delivered, unless one is still pending, and the ticker moves on;
    /// it ends, and with it the interval's only sender, once all interval handles are gone or the
    /// schedule runs past the end of time.
    pub open spec fn fired(self, s: BufferView<u64>, now: u64) -> (
        Option<TickerView>,
        BufferView<u64>,
    ) {
        if now < self.next_tick {
            (Some(self), s)
        } else if s.ports.receivers == 0 || self.moved_on() is None {
            (None, s.sent(now).sender_closed())
        } else {
            (self.moved_on(), s.sent(now))
        }
    }

    /// Whom firing at time `now` wakes.
    pub open spec fn fired_wakes(self, s: BufferView<u64>, now: u64, b: BoardView) -> BoardView {
        if now < self.next_tick {
            b
        } else if self.fired(s, now).0 is None {
            s.sent(now).ports.sender_closed_wakes(s.sent_wakes_one(b))
        } else {
            s.sent_wakes_one(b)
        }
    }
}

/// The sending half of an interval.
pub struct Ticker {
    ticks: Sender<u64>,
    next_tick: u64,
    period: u64,
}

impl View for Ticker {
    type V = TickerView;

    closed spec fn view(&self) -> TickerView {
        TickerView { next_tick: self.next_tick, period: self.period }
    }
}

/// Where a ticker stands, if it has not ended.
pub open spec fn standing(ticker: Option<Ticker>) -> Option<TickerView> {
    match ticker {
        Some(ticker) => Some(ticker@),
        None => None,
    }
}

impl Ticker {
    /// How long to sleep at time `now` until the next tick is due.
    pub fn delay(&self, now: u64) -> (r: u64)
        ensures
            r == self@.delay(now),
    {
        if self.next_tick > now {
            self.next_tick - now
        } else {
            0
        }
    }

    /// Fires at time `now`: delivers a tick, unless one is still pending, and moves on in the
    /// schedule. Before the tick is due nothing happens.
    ///
    /// The ticker ends, and with it the interval's only sender, once all interval handles are gone
    /// or the schedule runs past the end of time.
    pub fn fire(self, chan: &mut Chan<u64>, board: &mut Board, now: u64) -> (r: Option<Ticker>)
        requires
            old(chan).wf(),
            old(board).wf(),
            old(chan)@.ports.senders > 0,
        ensures
            final(chan).wf(),
            final(board).wf(),
            (standing(r), final(chan)@) == self@.fired(old(chan)@, now),
            final(board)@ == self@.fired_wakes(old(chan)@, now, old(board)@),
    {
        if self.delay(now) > 0 {
            return Some(self);
        }
        if self.ticks.is_closed(chan) {
            self.ticks.close(chan, board);
            return None;
        }
        let _ = self.ticks.send(chan, board, now);
        match self.next_tick.checked_add(self.period) {
            Some(next_tick) => Some(Ticker { ticks: self.ticks, next_tick, period: self.period }),
            None => {
                self.ticks.close(chan, board);
                None
            },
        }
    }
}

/// An interval whose first tick is due at once, at time `now`, and then every `period`.
pub fn interval(now: u64, period: u64) -> (r: (Chan<u64>, Interval, Ticker))
    ensures
        r.0.wf(),
        r.0@ == BufferView::<u64>::fresh(Some(1nat)),
        r.2@ == (TickerView { next_tick: now, period }),
        r.2@ == TickerView::starting(now, period),
{
    interval_at(now, period)
}

/// An interval whose first tick is due at `start`, and then every `period`.
pub fn interval_at(start: u64, period: u64) -> (r: (Chan<u64>, Interval, Ticker))
    ensures
        r.0.wf(),
        r.0@ == BufferView::<u64>::fresh(Some(1nat)),
        r.2@ == (TickerView { next_tick: start, period }),
        r.2@ == TickerView::starting(start, period),
{
    let (chan, tx, rx) = channel(1);
    (chan, Interval { ticks: rx }, Ticker { ticks: tx, next_tick: start, period })
}

impl Interval {
    /// Another handle on the same ticks.
    pub fn clone(&self, chan: &mut Chan<u64>) -> (r: Interval)
        requires
            old(chan).wf(),
            old(chan)@.ports.receivers < usize::MAX,
        ensures
            final(chan).wf(),
            final(chan)@ == old(chan)@.receiver_added(),
    {
        Interval { ticks: self.ticks.clone(chan) }
    }

    /// Gives the handle up. The ticker ends after the last one.
    pub fn close(self, chan: &mut Chan<u64>, board: &mut Board)
        requires
            old(chan).wf(),
            old(board).wf(),
            old(chan)@.ports.receivers > 0,
        ensures
            final(chan).wf(),
            final(board).wf(),
            final(chan)@ == old(chan)@.receiver_closed(),
            final(board)@ == old(chan)@.receiver_closed_wakes(old(board)@),
    {
        self.ticks.close(chan, board);
    }

    /// Begins to wait for the next tick: takes a pending one, or registers `thread` as a waiter.
    ///
    /// After `Wait` comes [`Interval::recheck`].
    pub fn tick(&self, chan: &mut Chan<u64>, board: &mut Board, thread: u64) -> (r: Step<
        Result<u64, RecvError>,
        RecvWaiterGuard,
    >)
        requires
            old(chan).wf(),
            old(board).wf(),
        ensures
            final(chan).wf(),
            final(board).wf(),
            old(chan)@.recv_step(old(board)@, thread, r, final(chan)@, final(board)@),
    {
        self.ticks.recv(chan, board, thread)
    }

    /// Looks again after registration.
    ///
    /// After `Wait` the thread parks, and once it is unparked comes [`Interval::resume`].
    pub fn recheck(&self, chan: &mut Chan<u64>, board: &mut Board, guard: RecvWaiterGuard) -> (r:
        Step<Result<u64, RecvError>, RecvWaiterGuard>)
        requires
            old(chan).wf(),
            old(board).wf(),
        ensures
            final(chan).wf(),
            final(board).wf(),
            old(chan)@.recheck_step(old(board)@, guard, r, final(chan)@, final(board)@),
    {
        self.ticks.recheck(chan, board, guard)
    }

    /// Goes on after the thread was unparked.
    pub fn resume(
        &self,
        chan: &mut Chan<u64>,
        board: &mut Board,
        thread: u64,
        guard: RecvWaiterGuard,
    ) -> (r: Step<Result<u64, RecvError>, RecvWaiterGuard>)
        requires
            old(chan).wf(),
            old(board).wf(),
        ensures
            final(chan).wf(),
            final(board).wf(),
            old(chan)@.released(guard.cell()).recv_step(
                old(board)@.closed(guard.cell()),
                thread,
                r,
                final(chan)@,
                final(board)@,
            ),
    {
        self.ticks.resume(chan, board, thread, guard)
    }
}

// ── Select ───────────────────────────────────────────────────────────────────
impl ArmOpTrait for Interval {
    type World = Chan<u64>;

    open spec fn fits(&self, s: BufferView<u64>) -> bool {
        true
    }

    open spec fn ready(&self, s: BufferView<u64>) -> bool {
        s.recv_ready()
    }

    open spec fn looked(&self, s: BufferView<u64>) -> Self {
        *self
    }

    open spec fn enrolled(&self, s: BufferView<u64>) -> Self {
        *self
    }

    open spec fn enlists(&self, s: BufferView<u64>) -> bool {
        true
    }

    open spec fn port(&self) -> Port {
        Port::Recv
    }

    proof fn readiness_is_stable(
        &self,
        s: BufferView<u64>,
        port: Port,
        waiters: Seq<SelectWaiter>,
    ) {
    }

    fn is_ready(&mut self, world: &Chan<u64>) -> (r: bool) {
        self.ticks.is_ready(world)
    }

    fn register_select(
        &mut self,
        world: &mut Chan<u64>,
        case_id: usize,
        selected: u64,
        thread: u64,
    ) {
        self.ticks.register_select(world, case_id, selected, thread)
    }

    fn abort_select(&self, world: &mut Chan<u64>, selected: u64) {
        self.ticks.abort_select(world, selected)
    }
}

impl SelectableReceiver for Interval {
    type Output = u64;

    type Pending = RecvWaiterGuard;

    open spec fn completes(
        before: (Self, BufferView<u64>, BoardView),
        thread: u64,
        after: (Self, BufferView<u64>, BoardView),
        r: Step<Result<u64, RecvError>, RecvWaiterGuard>,
    ) -> bool {
        &&& after.0 == before.0
        &&& before.1.recv_step(before.2, thread, r, after.1, after.2)
    }

    proof fn law_ready_arm_completes(
        before: (Self, BufferView<u64>, BoardView),
        thread: u64,
        after: (Self, BufferView<u64>, BoardView),
        r: Step<Result<u64, RecvError>, RecvWaiterGuard>,
    ) {
    }

    proof fn law_idle_arm_waits(
        before: (Self, BufferView<u64>, BoardView),
        thread: u64,
        after: (Self, BufferView<u64>, BoardView),
        r: Step<Result<u64, RecvError>, RecvWaiterGuard>,
    ) {
    }

    fn complete(&mut self, world: &mut Chan<u64>, board: &mut Board, thread: u64) -> (r: Step<
        Result<u64, RecvError>,
        RecvWaiterGuard,
    >) {
        self.tick(world, board, thread)
    }
}

// ── Laws ─────────────────────────────────────────────────────────────────────
/// When tick number `k` is due, counted from 0.
pub open spec fn due(start: u64, period: u64, k: nat) -> int {
    start + k * period
}

/// What can happen to an interval.
pub enum IntervalEvent {
    /// The ticker is fired at this time.
    Fire(u64),
    /// A pending tick, if there is one, is read.
    Read,
    /// Something else happens to the channel, which then has these contents: handles come and go,
    /// threads and arms wait or are woken.
    Other(BufferView<u64>),
}

/// An interval in the course of time.
pub struct IntervalRun {
    /// The ticker, if it has not ended.
    pub ticker: Option<TickerView>,
    pub chan: BufferView<u64>,
    /// How often the ticker has fired at or after its time.
    pub fired: nat,
    /// The ticks that were read.
    pub read: Seq<u64>,
}

impl IntervalRun {
    /// After one more event.
    pub open spec fn step(self, event: IntervalEvent) -> IntervalRun {
        match event {
            IntervalEvent::Fire(now) => match self.ticker {
                Some(ticker) => IntervalRun {
                    ticker: ticker.fired(self.chan, now).0,
                    chan: ticker.fired(self.chan, now).1,
                    fired: if now < ticker.next_tick {
                        self.fired
                    } else {
                        self.fired + 1
                    },
                    ..self
                },
                None => self,
            },
            IntervalEvent::Read => if self.chan.queue.len() > 0 {
                IntervalRun {
                    chan: self.chan.received(),
                    read: self.read.push(self.chan.queue[0]),
                    ..self
                }
            } else {
                self
            },
            IntervalEvent::Other(chan) => IntervalRun { chan, ..self },
        }
    }
}

/// An interval that starts at `start`, after the events.
pub open spec fn run_of(start: u64, period: u64, events: Seq<IntervalEvent>) -> IntervalRun
    decreases events.len(),
{
    if events.len() == 0 {
        IntervalRun {
            ticker: Some(TickerView::starting(start, period)),
            chan: BufferView::fresh(Some(1nat)),
            fired: 0,
            read: Seq::empty(),
        }
    } else {
        run_of(start, period, events.drop_last()).step(events.last())
    }
}

/// The events can have happened: whatever else happens to the channel, only firing and reading
/// change its queue.
pub open spec fn possible(start: u64, period: u64, events: Seq<IntervalEvent>) -> bool {
    forall|i: int|
        0 <= i < events.len() ==> (#[trigger] events[i] matches IntervalEvent::Other(chan)
            ==> chan.queue == run_of(start, period, events.take(i)).chan.queue)
}

/// The clock by which the ticker is fired does not go back.
pub open spec fn clock_advances(events: Seq<IntervalEvent>) -> bool {
    forall|i: int, j: int|
        0 <= i <= j < events.len() ==> (#[trigger] events[i] matches IntervalEvent::Fire(earlier)
            ==> (#[trigger] events[j] matches IntervalEvent::Fire(later) ==> earlier <= later))
}

/// All ticks that were delivered: those read, and then the pending one.
pub open spec fn delivered(run: IntervalRun) -> Seq<u64> {
    run.read + run.chan.queue
}

proof fn lemma_run(start: u64, period: u64, events: Seq<IntervalEvent>)
    requires
        possible(start, period, events),
    ensures
        ({
            let run = run_of(start, period, events);
            let ticks = delivered(run);
            &&& run.ticker matches Some(ticker) ==> ticker.next_tick == due(
                start,
                period,
                run.fired,
            ) && ticker.period == period
            &&& ticks.len() <= run.fired
            &&& forall|j: int|
                0 <= j < ticks.len() ==> #[trigger] ticks[j] >= due(start, period, j as nat)
                    && events.contains(IntervalEvent::Fire(ticks[j]))
        }),
    decreases events.len(),
{
    assert(0 * period == 0) by (nonlinear_arith);
    if events.len() > 0 {
        let n = events.len() as int;
        let init = events.drop_last();
        assert forall|i: int| 0 <= i < init.len() implies (
        #[trigger] init[i] matches IntervalEvent::Other(chan) ==> chan.queue == run_of(
            start,
            period,
            init.take(i),
        ).chan.queue) by {
            assert(events[i] == init[i]);
            assert(events.take(i) =~= init.take(i));
        }
        lemma_run(start, period, init);
        assert(events.take(n - 1) =~= init);
        let before = run_of(start, period, init);
        let run = run_of(start, period, events);
        let old_ticks = delivered(before);
        let ticks = delivered(run);
        assert(events[n - 1] == events.last());
        assert forall|t: u64| init.contains(IntervalEvent::Fire(t)) implies events.contains(
            IntervalEvent::Fire(t),
        ) by {
            let i = choose|i: int| 0 <= i < init.len() && init[i] == IntervalEvent::Fire(t);
            assert(events[i] == IntervalEvent::Fire(t));
        }
        match events.last() {
            IntervalEvent::Fire(now) => {
                if let Some(ticker) = before.ticker {
                    let k = old_ticks.len();
                    if now >= ticker.next_tick {
                        assert((before.fired + 1) * period == before.fired * period + period)
                            by (nonlinear_arith);
                        assert(k * period <= before.fired * period) by (nonlinear_arith)
                            requires
                                k <= before.fired,
                        ;
                        if before.chan.accepts() {
                            assert(ticks =~= old_ticks.push(now));
                        } else {
                            assert(ticks =~= old_ticks);
                        }
                    }
                }
            },
            IntervalEvent::Read => {
                assert(ticks =~= old_ticks);
            },
            IntervalEvent::Other(chan) => {
                assert(ticks =~= old_ticks);
            },
        }
        assert forall|j: int| 0 <= j < ticks.len() implies #[trigger] ticks[j] >= due(
            start,
            period,
            j as nat,
        ) && events.contains(IntervalEvent::Fire(ticks[j])) by {
            if j < old_ticks.len() {
                assert(ticks[j] == old_ticks[j]);
            }
        }
    }
}

/// The schedule does not drift: after `k` ticks the ticker is due `k` periods after the start,
/// however late the earlier ones were and whether or not they were read.
pub proof fn law_schedule_does_not_drift(start: u64, period: u64, events: Seq<IntervalEvent>)
    requires
        possible(start, period, events),
    ensures
        ({
            let run = run_of(start, period, events);
            run.ticker matches Some(ticker) ==> ticker.next_tick == due(start, period, run.fired)
                && ticker.period == period
        }),
{
    lemma_run(start, period, events);
}

/// No tick comes early: the tick that is read as number `k` carries a time no earlier than `k`
/// periods after the start.
pub proof fn law_no_tick_is_early(start: u64, period: u64, events: Seq<IntervalEvent>, k: int)
    requires
        possible(start, period, events),
        0 <= k < run_of(start, period, events).read.len(),
    ensures
        run_of(start, period, events).read[k] >= start + k * period,
{
    lemma_run(start, period, events);
    let run = run_of(start, period, events);
    assert(delivered(run)[k] == run.read[k]);
}

/// The ticks that are read carry times in ascending order.
pub proof fn law_ticks_come_in_order(
    start: u64,
    period: u64,
    events: Seq<IntervalEvent>,
    i: int,
    j: int,
)
    requires
        possible(start, period, events),
        clock_advances(events),
        0 <= i <= j < run_of(start, period, events).read.len(),
    ensures
        run_of(start, period, events).read[i] <= run_of(start, period, events).read[j],
{
    lemma_order(start, period, events, i, j);
    let run = run_of(start, period, events);
    assert(delivered(run)[i] == run.read[i]);
    assert(delivered(run)[j] == run.read[j]);
}

proof fn lemma_order(start: u64, period: u64, events: Seq<IntervalEvent>, i: int, j: int)
    requires
        possible(start, period, events),
        clock_advances(events),
        0 <= i <= j < delivered(run_of(start, period, events)).len(),
    ensures
        delivered(run_of(start, period, events))[i] <= delivered(
            run_of(start, period, events),
        )[j],
    decreases events.len(),
{
    if events.len() > 0 {
        let n = events.len() as int;
        let init = events.drop_last();
        assert forall|k: int| 0 <= k < init.len() implies (
        #[trigger] init[k] matches IntervalEvent::Other(chan) ==> chan.queue == run_of(
            start,
            period,
            init.take(k),
        ).chan.queue) by {
            assert(events[k] == init[k]);
            assert(events.take(k) =~= init.take(k));
        }
        assert forall|k: int, l: int| 0 <= k <= l < init.len() implies (
        #[trigger] init[k] matches IntervalEvent::Fire(earlier) ==> (
        #[trigger] init[l] matches IntervalEvent::Fire(later) ==> earlier <= later)) by {
            assert(events[k] == init[k] && events[l] == init[l]);
        }
        lemma_run(start, period, init);
        assert(events.take(n - 1) =~= init);
        assert(events[n - 1] == events.last());
        let before = run_of(start, period, init);
        let old_ticks = delivered(before);
        let ticks = delivered(run_of(start, period, events));
        if j < old_ticks.len() {
            lemma_order(start, period, init, i, j);
        }
        match events.last() {
            IntervalEvent::Fire(now) => {
                let added = before.ticker matches Some(ticker) && now >= ticker.next_tick
                    && before.chan.accepts();
                if added {
                    assert(ticks =~= old_ticks.push(now));
                    if i < old_ticks.len() {
                        assert(init.contains(IntervalEvent::Fire(old_ticks[i])));
                        let k = choose|k: int|
                            0 <= k < init.len() && init[k] == IntervalEvent::Fire(old_ticks[i]);
                        assert(events[k] == IntervalEvent::Fire(old_ticks[i]));
                        assert(old_ticks[i] <= now);
                    }
                } else {
                    assert(ticks =~= old_ticks);
                }
            },
            IntervalEvent::Read => {
                assert(ticks =~= old_ticks);
            },
            IntervalEvent::Other(chan) => {
                assert(ticks =~= old_ticks);
            },
        }
    }
}

/// A tick that is due, also one of a start in the past, fires without delay; and whoever sleeps for
/// the delay finds the tick due.
pub proof fn law_due_ticks_do_not_wait(
    ticker: TickerView,
    s: BufferView<u64>,
    asked: u64,
    now: u64,
)
    requires
        s.accepts(),
    ensures
        ticker.delay(asked) == 0 <==> ticker.next_tick <= asked,
        now >= asked + ticker.delay(asked) ==> ticker.fired(s, now).1.queue == s.queue.push(now),
{
}

/// At most one tick is pending: as long as it was not read, further ticks are discarded and wake
/// nobody.
pub proof fn law_missed_ticks_are_discarded(s: BufferView<u64>, b: BoardView, now: u64)
    requires
        s.capacity == Some(1nat),
        s.queue.len() == 1,
    ensures
        s.sent(now) == s,
        s.sent_wakes_one(b) == b,
        s.received().ports.receivers > 0 ==> s.received().sent(now).queue == seq![now],
{
    assert(s.received().ports.receivers > 0 ==> s.received().sent(now).queue =~= seq![now]);
}

// ── What the operations do ───────────────────────────────────────────────────
/// What firing comes to. Before the tick is due nothing changes. Otherwise the time of firing goes
/// to the end of the queue if there is room and a handle is left, and the ticker moves on by
/// exactly one period; it ends, and its sender with it, exactly if no handle is left or the next
/// tick cannot be counted. The delay reaches exactly to the due time.
pub proof fn law_fire_delivers_its_time(
    ticker: TickerView,
    s: BufferView<u64>,
    b: BoardView,
    now: u64,
)
    ensures
        now < ticker.next_tick ==> {
            &&& ticker.fired(s, now) == (Some(ticker), s)
            &&& ticker.fired_wakes(s, now, b) == b
            &&& now + ticker.delay(now) == ticker.next_tick
        },
        now >= ticker.next_tick ==> {
            let (next, after) = ticker.fired(s, now);
            let room = s.capacity is None || s.queue.len() < s.capacity->0;
            &&& ticker.delay(now) == 0
            &&& s.ports.receivers > 0 && room ==> after.queue == s.queue.push(now)
            &&& s.ports.receivers == 0 || !room ==> after.queue == s.queue
            &&& next is None <==> s.ports.receivers == 0 || ticker.next_tick + ticker.period
                > u64::MAX
            &&& next matches Some(later) ==> later.next_tick == ticker.next_tick + ticker.period
                && later.period == ticker.period
            &&& next is Some ==> after.ports.senders == s.ports.senders
            &&& next is None && s.ports.senders > 0 ==> after.ports.senders + 1 == s.ports.senders
            &&& after.ports.receivers == s.ports.receivers
            &&& after.capacity == s.capacity
            &&& next is Some && s.ports.receivers > 0 && room ==> ticker.fired_wakes(s, now, b)
                == s.arrival_wakes_one(b)
            &&& next is Some && !room ==> ticker.fired_wakes(s, now, b) == b
        },
{
}

/// An interval is ready as an arm exactly if a tick is pending or the ticker has ended, and its
/// completion gives the pending tick and takes it; with none and the ticker ended it gives the
/// disconnection; else it waits.
pub proof fn law_recv_arm_receives_ticks(
    iv: Interval,
    s: BufferView<u64>,
    b: BoardView,
    thread: u64,
    after: (Interval, BufferView<u64>, BoardView),
    r: Step<Result<u64, RecvError>, RecvWaiterGuard>,
)
    ensures
        iv.ready(s) <==> s.queue.len() > 0 || s.ports.senders == 0,
        iv.fits(s),
        iv.looked(s) == iv,
        iv.enrolled(s) == iv,
        iv.enlists(s),
        iv.port() == Port::Recv,
        Interval::completes((iv, s, b), thread, after, r) ==> {
            &&& after.0 == iv
            &&& s.queue.len() > 0 ==> {
                &&& r == Step::<Result<u64, RecvError>, RecvWaiterGuard>::Done(Ok(s.queue[0]))
                &&& after.1.queue == s.queue.drop_first()
            }
            &&& s.queue.len() == 0 && s.ports.senders == 0 ==> {
                &&& r == Step::<Result<u64, RecvError>, RecvWaiterGuard>::Done(
                    Err(RecvError::Disconnected),
                )
                &&& after.1 == s
                &&& after.2 == b
            }
            &&& s.queue.len() == 0 && s.ports.senders > 0 ==> r is Wait && after.1.queue == s.queue
            &&& after.1.ports.senders == s.ports.senders
            &&& after.1.ports.receivers == s.ports.receivers
        },
{
}

/// A ticker that goes on stands where it stands, and one that has ended nowhere.
pub proof fn law_standing_is_where_it_is(ticker: Ticker)
    ensures
        standing(Some(ticker)) == Some(ticker@),
        standing(None) == None::<TickerView>,
{
}

} // verus!
