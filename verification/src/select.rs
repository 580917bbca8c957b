//! Selection among channel operations.
//!
//! A [`Select`] holds arms, each a receive or a send that somebody wants to perform. Selecting
//! finds an arm whose operation can complete without waiting and returns its index; the caller then
//! completes the operation on the channel itself. A selection goes through four phases:
//!
//! - *try*: look at all arms once, beginning at an arm that moves on with every sweep, and take the
//!   first that is ready;
//! - *register*: if none is, leave a waiter at every arm, all with one fresh selection cell;
//! - *park*: look once more, and sleep unless an arm has become ready or has claimed the cell;
//! - *finish*: abort the waiters and see who claimed the cell; if nobody did, start over.
//!
//! The first two phases are [`Select::select`] and its variants, the third is [`Select::recheck`],
//! and the last is [`Select::resume`]. Between these steps other threads may change the channels
//! and the board as they like. Points in time and durations are counted in nanoseconds.
use vstd::prelude::*;

use crate::selectable::{delisted, enlisted, ArmOpTrait, Channels};
use crate::waiter::{aborted, Board, BoardView, SelectWaiter, UNSELECTED};

verus! {

// ── Arms ─────────────────────────────────────────────────────────────────────
/// A recv arm or a send arm, on the same channels.
pub enum AnyOp<A, B> {
    Recv(A),
    Send(B),
}

impl<A: ArmOpTrait, B: ArmOpTrait<World = A::World>> ArmOpTrait for AnyOp<A, B> {
    type World = A::World;

    open spec fn fits(&self, s: <A::World as Channels>::State) -> bool {
        match *self {
            AnyOp::Recv(op) => op.fits(s),
            AnyOp::Send(op) => op.fits(s),
        }
    }

    open spec fn ready(&self, s: <A::World as Channels>::State) -> bool {
        match *self {
            AnyOp::Recv(op) => op.ready(s),
            AnyOp::Send(op) => op.ready(s),
        }
    }

    open spec fn looked(&self, s: <A::World as Channels>::State) -> Self {
        match *self {
            AnyOp::Recv(op) => AnyOp::Recv(op.looked(s)),
            AnyOp::Send(op) => AnyOp::Send(op.looked(s)),
        }
    }

    open spec fn enrolled(&self, s: <A::World as Channels>::State) -> Self {
        match *self {
            AnyOp::Recv(op) => AnyOp::Recv(op.enrolled(s)),
            AnyOp::Send(op) => AnyOp::Send(op.enrolled(s)),
        }
    }

    open spec fn enlists(&self, s: <A::World as Channels>::State) -> bool {
        match *self {
            AnyOp::Recv(op) => op.enlists(s),
            AnyOp::Send(op) => op.enlists(s),
        }
    }

    open spec fn port(&self) -> <A::World as Channels>::Port {
        match *self {
            AnyOp::Recv(op) => op.port(),
            AnyOp::Send(op) => op.port(),
        }
    }

    proof fn readiness_is_stable(
        &self,
        s: <A::World as Channels>::State,
        port: <A::World as Channels>::Port,
        waiters: Seq<SelectWaiter>,
    ) {
        match *self {
            AnyOp::Recv(op) => op.readiness_is_stable(s, port, waiters),
            AnyOp::Send(op) => op.readiness_is_stable(s, port, waiters),
        }
    }

    fn is_ready(&mut self, world: &A::World) -> (r: bool) {
        match self {
            AnyOp::Recv(op) => op.is_ready(world),
            AnyOp::Send(op) => op.is_ready(world),
        }
    }

    fn register_select(
        &mut self,
        world: &mut A::World,
        case_id: usize,
        selected: u64,
        thread: u64,
    ) {
        match self {
            AnyOp::Recv(op) => op.register_select(world, case_id, selected, thread),
            AnyOp::Send(op) => op.register_select(world, case_id, selected, thread),
        }
    }

    fn abort_select(&self, world: &mut A::World, selected: u64) {
        match self {
            AnyOp::Recv(op) => op.abort_select(world, selected),
            AnyOp::Send(op) => op.abort_select(world, selected),
        }
    }
}

// ── Rules ────────────────────────────────────────────────────────────────────
/// Every arm belongs to the channels.
pub open spec fn all_fit<O: ArmOpTrait>(
    ops: Seq<O>,
    s: <O::World as Channels>::State,
) -> bool {
    forall|i: int| 0 <= i < ops.len() ==> (#[trigger] ops[i]).fits(s)
}

/// The arm that is looked at after `i` others in a sweep over `n` arms that begins at `start`.
pub open spec fn in_sweep(start: int, i: int, n: int) -> int {
    if start + i < n {
        start + i
    } else {
        start + i - n
    }
}

/// How many arms are looked at before arm `j` in a sweep over `n` arms that begins at `start`.
pub open spec fn sweep_place(start: int, j: int, n: int) -> int {
    if j >= start {
        j - start
    } else {
        j - start + n
    }
}

/// How many arms, from the `from`-th of the sweep on, are looked at before the first ready one; the
/// number of all arms if none is ready.
pub open spec fn first_ready<O: ArmOpTrait>(
    ops: Seq<O>,
    s: <O::World as Channels>::State,
    start: int,
    from: int,
) -> int
    decreases ops.len() - from,
{
    if from >= ops.len() {
        ops.len() as int
    } else if ops[in_sweep(start, from, ops.len() as int)].ready(s) {
        from
    } else {
        first_ready(ops, s, start, from + 1)
    }
}

/// The arms after the first `k` of a sweep were looked at.
pub open spec fn looked_at<O: ArmOpTrait>(
    ops: Seq<O>,
    s: <O::World as Channels>::State,
    start: int,
    k: int,
) -> Seq<O> {
    Seq::new(
        ops.len(),
        |j: int|
            if sweep_place(start, j, ops.len() as int) < k {
                ops[j].looked(s)
            } else {
                ops[j]
            },
    )
}

/// The arms and the channels after the first `k` arms were registered.
pub open spec fn registered<O: ArmOpTrait>(
    ops: Seq<O>,
    s: <O::World as Channels>::State,
    cell: u64,
    thread: u64,
    k: int,
) -> (Seq<O>, <O::World as Channels>::State)
    decreases k,
{
    if k <= 0 {
        (ops, s)
    } else {
        let (ops, s) = registered(ops, s, cell, thread, k - 1);
        let op = ops[k - 1];
        let waiter = SelectWaiter {
            case_id: (k - 1) as usize,
            selected: cell,
            thread,
            aborted: false,
        };
        (
            ops.update(k - 1, op.enrolled(s)),
            if op.enlists(s) {
                enlisted::<O::World>(s, op.port(), waiter)
            } else {
                s
            },
        )
    }
}

/// The channels after the first `k` arms aborted their waiters.
pub open spec fn unregistered<O: ArmOpTrait>(
    ops: Seq<O>,
    s: <O::World as Channels>::State,
    cell: u64,
    k: int,
) -> <O::World as Channels>::State
    decreases k,
{
    if k <= 0 {
        s
    } else {
        delisted::<O::World>(unregistered(ops, s, cell, k - 1), ops[k - 1].port(), cell)
    }
}

/// The deadline, if there is one, is reached at time `now`.
pub open spec fn expired(deadline: Option<u64>, now: u64) -> bool {
    deadline matches Some(d) && d <= now
}

/// When a selection gives up that begins at time `now` and may last for `timeout`.
pub open spec fn due_at(now: u64, timeout: u64) -> u64 {
    (now + timeout) as u64
}

/// How long it takes from `now` until the deadline, if there is one.
pub open spec fn time_left(deadline: Option<u64>, now: u64) -> Option<u64> {
    match deadline {
        None => None,
        Some(d) => Some(
            (if d > now {
                d - now
            } else {
                0
            }) as u64,
        ),
    }
}

/// What a pass over the arms may lead to, from the arms, the channels and the board before to those
/// after: the first ready arm of the sweep; else the end, if the deadline is reached; else all arms
/// are registered with a fresh cell.
pub open spec fn pass_step<O: ArmOpTrait>(
    ops: Seq<O>,
    s: <O::World as Channels>::State,
    b: BoardView,
    thread: u64,
    now: u64,
    deadline: Option<u64>,
    r: SelectStep,
    ops_after: Seq<O>,
    s_after: <O::World as Channels>::State,
    b_after: BoardView,
) -> bool {
    let n = ops.len() as int;
    let start = b.turn as int % n;
    let first = first_ready(ops, s, start, 0);
    let swept = BoardView { turn: b.turn.wrapping_add(1), ..b };
    if first < n {
        &&& r == SelectStep::Selected(
            SelectedOperation { index: in_sweep(start, first, n) as usize },
        )
        &&& ops_after == looked_at(ops, s, start, first + 1)
        &&& s_after == s
        &&& b_after == swept
    } else if expired(deadline, now) {
        &&& r == SelectStep::TimedOut
        &&& ops_after == looked_at(ops, s, start, n)
        &&& s_after == s
        &&& b_after == swept
    } else {
        &&& r matches SelectStep::Registered(call)
        &&& call.thread() == thread
        &&& call.deadline() == deadline
        &&& !b.cells.contains_key(call.cell())
        &&& (ops_after, s_after) == registered(
            looked_at(ops, s, start, n),
            s,
            call.cell(),
            thread,
            n,
        )
        &&& b_after == swept.opened(call.cell())
    }
}

/// What the end of a call whose cell was claimed leads to: the waiters are aborted, the cell is
/// closed, and the arm that claimed it is selected.
pub open spec fn finish_step<O: ArmOpTrait>(
    ops: Seq<O>,
    s: <O::World as Channels>::State,
    b: BoardView,
    call: SelectCall,
    r: SelectStep,
    s_after: <O::World as Channels>::State,
    b_after: BoardView,
) -> bool {
    &&& r == SelectStep::Selected(SelectedOperation { index: b.cells[call.cell()] })
    &&& s_after == unregistered(ops, s, call.cell(), ops.len() as int)
    &&& b_after == b.closed(call.cell())
}

/// What the second look of a call leads to: the first ready arm, if any, claims the cell; then the
/// call ends if the cell is claimed, and else the thread is to park.
pub open spec fn recheck_step<O: ArmOpTrait>(
    ops: Seq<O>,
    s: <O::World as Channels>::State,
    b: BoardView,
    call: SelectCall,
    r: SelectStep,
    ops_after: Seq<O>,
    s_after: <O::World as Channels>::State,
    b_after: BoardView,
) -> bool {
    let n = ops.len() as int;
    let first = first_ready(ops, s, 0, 0);
    let looked = looked_at(ops, s, 0, if first < n { first + 1 } else { n });
    let claimed = if first < n {
        b.claim(call.cell(), first as usize)
    } else {
        b
    };
    &&& ops_after == looked
    &&& if claimed.unselected(call.cell()) {
        &&& r == SelectStep::Park(call)
        &&& s_after == s
        &&& b_after == claimed
    } else {
        finish_step(looked, s, claimed, call, r, s_after, b_after)
    }
}

/// What going on after parking may lead to: the call ends if the cell is claimed; else the waiters
/// are aborted and the cell is closed, and the selection gives up at the deadline or starts over.
pub open spec fn resume_step<O: ArmOpTrait>(
    ops: Seq<O>,
    s: <O::World as Channels>::State,
    b: BoardView,
    now: u64,
    call: SelectCall,
    r: SelectStep,
    ops_after: Seq<O>,
    s_after: <O::World as Channels>::State,
    b_after: BoardView,
) -> bool {
    let cleared = unregistered(ops, s, call.cell(), ops.len() as int);
    if !b.unselected(call.cell()) {
        &&& ops_after == ops
        &&& finish_step(ops, s, b, call, r, s_after, b_after)
    } else if expired(call.deadline(), now) {
        &&& r == SelectStep::TimedOut
        &&& ops_after == ops
        &&& s_after == cleared
        &&& b_after == b.closed(call.cell())
    } else {
        pass_step(
            ops,
            cleared,
            b.closed(call.cell()),
            call.thread(),
            now,
            call.deadline(),
            r,
            ops_after,
            s_after,
            b_after,
        )
    }
}

// ── Select ───────────────────────────────────────────────────────────────────
/// The arm that was selected.
#[derive(Debug, Clone, Copy, PartialEq, Eq, Structural)]
pub struct SelectedOperation {
    /// Its index, as returned when the arm was added.
    pub index: usize,
}

/// A select call that has registered its arms.
pub struct SelectCall {
    cell: u64,
    thread: u64,
    deadline: Option<u64>,
}

impl SelectCall {
    /// The selection cell of the call.
    pub closed spec fn cell(&self) -> u64 {
        self.cell
    }

    /// The thread that waits.
    pub closed spec fn thread(&self) -> u64 {
        self.thread
    }

    /// When the call gives up.
    pub closed spec fn deadline(&self) -> Option<u64> {
        self.deadline
    }

    /// How long the thread may sleep at time `now`; `None` if there is no deadline.
    pub fn park_timeout(&self, now: u64) -> (r: Option<u64>)
        ensures
            r == (match self.deadline() {
                None => None,
                Some(d) => Some(
                    (if d > now {
                        d - now
                    } else {
                        0
                    }) as u64,
                ),
            }),
            r == time_left(self.deadline(), now),
    {
        match self.deadline {
            None => None,
            Some(d) => Some(d.saturating_sub(now)),
        }
    }
}

/// What a step of a selection led to.
pub enum SelectStep {
    /// This arm was selected.
    Selected(SelectedOperation),
    /// No arm was ready by the deadline.
    TimedOut,
    /// The arms are registered; [`Select::recheck`] comes next.
    Registered(SelectCall),
    /// The thread is to park, and [`Select::resume`] comes once it is unparked or the time is up.
    Park(SelectCall),
}

/// A set of arms to select from.
pub struct Select<A, B> {
    ops: Vec<AnyOp<A, B>>,
}

impl<A, B> View for Select<A, B> {
    type V = Seq<AnyOp<A, B>>;

    /// The arms by index.
    closed spec fn view(&self) -> Seq<AnyOp<A, B>> {
        self.ops@
    }
}

impl<A: ArmOpTrait, B: ArmOpTrait<World = A::World>> Default for Select<A, B> {
    fn default() -> (r: Self)
        ensures
            r@ == Seq::<AnyOp<A, B>>::empty(),
    {
        Self::new()
    }
}

impl<A: ArmOpTrait, B: ArmOpTrait<World = A::World>> Select<A, B> {
    /// A select without arms.
    pub fn new() -> (r: Self)
        ensures
            r@ == Seq::<AnyOp<A, B>>::empty(),
    {
        Select { ops: Vec::new() }
    }

    /// The number of arms fits the machine word.
    pub proof fn law_arm_count_fits(&self)
        ensures
            self@.len() <= usize::MAX,
    {
        assert(self.ops.len() == self.ops@.len());
    }

    /// Adds a recv arm and returns its index.
    pub fn recv(&mut self, rx: A) -> (index: usize)
        ensures
            index == old(self)@.len(),
            final(self)@ == old(self)@.push(AnyOp::Recv(rx)),
    {
        let index: usize = self.ops.len();
        self.ops.push(AnyOp::Recv(rx));
        index
    }

    /// Adds a send arm and returns its index.
    pub fn send(&mut self, tx: B) -> (index: usize)
        ensures
            index == old(self)@.len(),
            final(self)@ == old(self)@.push(AnyOp::Send(tx)),
    {
        let index: usize = self.ops.len();
        self.ops.push(AnyOp::Send(tx));
        index
    }

    /// One sweep over the arms, beginning at `start`: the first ready one.
    fn sweep(&mut self, world: &A::World, start: usize) -> (r: Option<usize>)
        requires
            world.valid(),
            all_fit(old(self)@, world.state()),
            start < old(self)@.len(),
        ensures
            ({
                let ops = old(self)@;
                let s = world.state();
                let n = ops.len() as int;
                let first = first_ready(ops, s, start as int, 0);
                if first < n {
                    r == Some(in_sweep(start as int, first, n) as usize) && final(self)@
                        == looked_at(ops, s, start as int, first + 1)
                } else {
                    r is None && final(self)@ == looked_at(ops, s, start as int, n)
                }
            }),
    {
        let ghost ops = self.ops@;
        let ghost s = world.state();
        let n: usize = self.ops.len();
        let mut i: usize = 0;
        assert(looked_at(ops, s, start as int, 0) =~= ops);
        while i < n
            invariant
                world.valid(),
                s == world.state(),
                ops == old(self)@,
                all_fit(ops, s),
                i <= n == ops.len(),
                start < n,
                self.ops@ == looked_at(ops, s, start as int, i as int),
                first_ready(ops, s, start as int, 0) == first_ready(
                    ops,
                    s,
                    start as int,
                    i as int,
                ),
            decreases n - i,
        {
            let index: usize = if i < n - start {
                start + i
            } else {
                i - (n - start)
            };
            assert(index == in_sweep(start as int, i as int, n as int));
            assert(sweep_place(start as int, index as int, n as int) == i);
            assert(self.ops@[index as int] == ops[index as int]);
            let ready = self.ops[index].is_ready(world);
            assert(self.ops@ =~= looked_at(ops, s, start as int, i + 1));
            if ready {
                return Some(index);
            }
            i = i + 1;
        }
        None
    }

    /// Tries all arms, and if none is ready and there is time left, registers them all.
    fn pass(
        &mut self,
        world: &mut A::World,
        board: &mut Board,
        thread: u64,
        now: u64,
        deadline: Option<u64>,
    ) -> (r: SelectStep)
        requires
            old(world).valid(),
            old(board).wf(),
            old(self)@.len() > 0,
            all_fit(old(self)@, old(world).state()),
        ensures
            final(world).valid(),
            final(board).wf(),
            final(self)@.len() == old(self)@.len() <= usize::MAX,
            all_fit(final(self)@, final(world).state()),
            pass_step(
                old(self)@,
                old(world).state(),
                old(board)@,
                thread,
                now,
                deadline,
                r,
                final(self)@,
                final(world).state(),
                final(board)@,
            ),
    {
        let ghost ops = self.ops@;
        let ghost s = world.state();
        let n: usize = self.ops.len();
        let start = board.next_start(n);
        proof {
            lemma_looking_keeps_fit(ops, s, start as int);
        }
        if let Some(index) = self.sweep(world, start) {
            return SelectStep::Selected(SelectedOperation { index });
        }
        if let Some(d) = deadline {
            if now >= d {
                return SelectStep::TimedOut;
            }
        }
        let cell = board.open_cell();
        let ghost looked = self.ops@;
        let mut i: usize = 0;
        while i < n
            invariant
                world.valid(),
                i <= n == looked.len() == self.ops@.len(),
                all_fit(self.ops@, world.state()),
                (self.ops@, world.state()) == registered(looked, s, cell, thread, i as int),
            decreases n - i,
        {
            let ghost ops_before = self.ops@;
            let ghost s_before = world.state();
            self.ops[i].register_select(world, i, cell, thread);
            proof {
                lemma_registering_keeps_fit(
                    ops_before,
                    s_before,
                    i as int,
                    SelectWaiter { case_id: i, selected: cell, thread, aborted: false },
                );
                assert(self.ops@ =~= ops_before.update(
                    i as int,
                    ops_before[i as int].enrolled(s_before),
                ));
                assert(i as int as usize == i);
            }
            i = i + 1;
        }
        SelectStep::Registered(SelectCall { cell, thread, deadline })
    }

    /// Aborts the waiters of a call at all arms.
    fn abort(&self, world: &mut A::World, selected: u64)
        requires
            old(world).valid(),
            all_fit(self@, old(world).state()),
        ensures
            final(world).valid(),
            all_fit(self@, final(world).state()),
            final(world).state() == unregistered(
                self@,
                old(world).state(),
                selected,
                self@.len() as int,
            ),
    {
        let n: usize = self.ops.len();
        let mut i: usize = 0;
        while i < n
            invariant
                world.valid(),
                i <= n == self.ops@.len(),
                all_fit(self.ops@, world.state()),
                world.state() == unregistered(self.ops@, old(world).state(), selected, i as int),
            decreases n - i,
        {
            proof {
                lemma_aborting_keeps_fit(
                    self.ops@,
                    world.state(),
                    self.ops@[i as int].port(),
                    selected,
                );
            }
            self.ops[i].abort_select(world, selected);
            i = i + 1;
        }
    }

    /// Begins to select: takes a ready arm, or registers them all.
    ///
    /// The select must have an arm. A call that is registered alone on the side of a channel where
    /// its arm waits is woken once the arm is ready. Of several calls that wait on the same side, a
    /// single message or freed place wakes the one that registered last, and the others are then
    /// registered there no longer: such a call may sleep on while a message is there, until another
    /// arm or a deadline wakes it.
    pub fn select(&mut self, world: &mut A::World, board: &mut Board, thread: u64) -> (r:
        SelectStep)
        requires
            old(world).valid(),
            old(board).wf(),
            old(self)@.len() > 0,
            all_fit(old(self)@, old(world).state()),
        ensures
            final(world).valid(),
            final(board).wf(),
            final(self)@.len() == old(self)@.len() <= usize::MAX,
            all_fit(final(self)@, final(world).state()),
            pass_step(
                old(self)@,
                old(world).state(),
                old(board)@,
                thread,
                0,
                None,
                r,
                final(self)@,
                final(world).state(),
                final(board)@,
            ),
    {
        self.pass(world, board, thread, 0, None)
    }

    /// Takes a ready arm, without waiting for one.
    ///
    /// The select must have an arm.
    pub fn try_select(&mut self, world: &mut A::World, board: &mut Board) -> (r: Option<
        SelectedOperation,
    >)
        requires
            old(world).valid(),
            old(board).wf(),
            old(self)@.len() > 0,
            all_fit(old(self)@, old(world).state()),
        ensures
            final(world).valid(),
            final(board).wf(),
            final(self)@.len() == old(self)@.len() <= usize::MAX,
            all_fit(final(self)@, final(world).state()),
            final(world).state() == old(world).state(),
            final(board)@ == (BoardView {
                turn: old(board)@.turn.wrapping_add(1),
                ..old(board)@
            }),
            ({
                let ops = old(self)@;
                let s = old(world).state();
                let n = ops.len() as int;
                let start = old(board)@.turn as int % n;
                let first = first_ready(ops, s, start, 0);
                if first < n {
                    &&& r == Some(
                        SelectedOperation { index: in_sweep(start, first, n) as usize },
                    )
                    &&& final(self)@ == looked_at(ops, s, start, first + 1)
                } else {
                    &&& r is None
                    &&& final(self)@ == looked_at(ops, s, start, n)
                }
            }),
            pass_step(
                old(self)@,
                old(world).state(),
                old(board)@,
                0,
                0,
                Some(0),
                match r {
                    Some(operation) => SelectStep::Selected(operation),
                    None => SelectStep::TimedOut,
                },
                final(self)@,
                final(world).state(),
                final(board)@,
            ),
    {
        match self.pass(world, board, 0, 0, Some(0)) {
            SelectStep::Selected(operation) => Some(operation),
            _ => None,
        }
    }

    /// Begins to select at time `now`, to give up `timeout` later.
    ///
    /// The select must have an arm.
    pub fn select_timeout(
        &mut self,
        world: &mut A::World,
        board: &mut Board,
        thread: u64,
        now: u64,
        timeout: u64,
    ) -> (r: SelectStep)
        requires
            old(world).valid(),
            old(board).wf(),
            old(self)@.len() > 0,
            all_fit(old(self)@, old(world).state()),
            now + timeout <= u64::MAX,
        ensures
            final(world).valid(),
            final(board).wf(),
            final(self)@.len() == old(self)@.len() <= usize::MAX,
            all_fit(final(self)@, final(world).state()),
            pass_step(
                old(self)@,
                old(world).state(),
                old(board)@,
                thread,
                now,
                Some(due_at(now, timeout)),
                r,
                final(self)@,
                final(world).state(),
                final(board)@,
            ),
    {
        self.select_deadline(world, board, thread, now, now + timeout)
    }

    /// Begins to select at time `now`, to give up at `deadline`.
    ///
    /// The select must have an arm.
    pub fn select_deadline(
        &mut self,
        world: &mut A::World,
        board: &mut Board,
        thread: u64,
        now: u64,
        deadline: u64,
    ) -> (r: SelectStep)
        requires
            old(world).valid(),
            old(board).wf(),
            old(self)@.len() > 0,
            all_fit(old(self)@, old(world).state()),
        ensures
            final(world).valid(),
            final(board).wf(),
            final(self)@.len() == old(self)@.len() <= usize::MAX,
            all_fit(final(self)@, final(world).state()),
            pass_step(
                old(self)@,
                old(world).state(),
                old(board)@,
                thread,
                now,
                Some(deadline),
                r,
                final(self)@,
                final(world).state(),
                final(board)@,
            ),
    {
        self.pass(world, board, thread, now, Some(deadline))
    }

    /// Looks again after registration, so that what happened in between is not missed: if an arm is
    /// ready by now, it claims the call's cell. The thread is to park if nobody has claimed it.
    pub fn recheck(&mut self, world: &mut A::World, board: &mut Board, call: SelectCall) -> (r:
        SelectStep)
        requires
            old(world).valid(),
            old(board).wf(),
            old(board)@.cells.contains_key(call.cell()),
            old(self)@.len() > 0,
            all_fit(old(self)@, old(world).state()),
        ensures
            final(world).valid(),
            final(board).wf(),
            final(self)@.len() == old(self)@.len() <= usize::MAX,
            all_fit(final(self)@, final(world).state()),
            recheck_step(
                old(self)@,
                old(world).state(),
                old(board)@,
                call,
                r,
                final(self)@,
                final(world).state(),
                final(board)@,
            ),
    {
        proof {
            self.law_arm_count_fits();
            lemma_looking_keeps_fit(self.ops@, world.state(), 0);
            lemma_first_ready(self.ops@, world.state(), 0, 0);
        }
        if let Some(index) = self.sweep(world, 0) {
            let _ = board.claim(call.cell, index);
        }
        match board.load(call.cell) {
            Some(won) if won != UNSELECTED => {
                self.abort(world, call.cell);
                board.close_cell(call.cell);
                SelectStep::Selected(SelectedOperation { index: won })
            },
            _ => SelectStep::Park(call),
        }
    }

    /// Goes on at time `now` after the thread was unparked or the time was up: aborts the waiters
    /// and selects the arm that claimed the cell. If none did, gives up at the deadline, or starts
    /// over.
    pub fn resume(
        &mut self,
        world: &mut A::World,
        board: &mut Board,
        now: u64,
        call: SelectCall,
    ) -> (r: SelectStep)
        requires
            old(world).valid(),
            old(board).wf(),
            old(board)@.cells.contains_key(call.cell()),
            old(self)@.len() > 0,
            all_fit(old(self)@, old(world).state()),
        ensures
            final(world).valid(),
            final(board).wf(),
            final(self)@.len() == old(self)@.len() <= usize::MAX,
            all_fit(final(self)@, final(world).state()),
            resume_step(
                old(self)@,
                old(world).state(),
                old(board)@,
                now,
                call,
                r,
                final(self)@,
                final(world).state(),
                final(board)@,
            ),
    {
        proof {
            self.law_arm_count_fits();
        }
        self.abort(world, call.cell);
        let won: usize = match board.load(call.cell) {
            Some(held) => held,
            None => UNSELECTED,
        };
        board.close_cell(call.cell);
        if won != UNSELECTED {
            return SelectStep::Selected(SelectedOperation { index: won });
        }
        if let Some(d) = call.deadline {
            if now >= d {
                return SelectStep::TimedOut;
            }
        }
        self.pass(world, board, call.thread, now, call.deadline)
    }
}

proof fn lemma_aborting_keeps_fit<O: ArmOpTrait>(
    ops: Seq<O>,
    s: <O::World as Channels>::State,
    port: <O::World as Channels>::Port,
    cell: u64,
)
    requires
        all_fit(ops, s),
    ensures
        all_fit(ops, delisted::<O::World>(s, port, cell)),
{
    let waiters = aborted(O::World::stack(s, port), cell);
    assert forall|j: int| 0 <= j < ops.len() implies (#[trigger] ops[j]).fits(
        delisted::<O::World>(s, port, cell),
    ) by {
        ops[j].readiness_is_stable(s, port, waiters);
    }
}

pub(crate) proof fn lemma_looking_keeps_fit<O: ArmOpTrait>(
    ops: Seq<O>,
    s: <O::World as Channels>::State,
    start: int,
)
    requires
        all_fit(ops, s),
    ensures
        forall|k: int| #[trigger] all_fit(looked_at(ops, s, start, k), s),
{
    assert forall|k: int| #[trigger] all_fit(looked_at(ops, s, start, k), s) by {
        assert forall|j: int| 0 <= j < ops.len() implies (#[trigger] looked_at(
            ops,
            s,
            start,
            k,
        )[j]).fits(s) by {
            ops[j].readiness_is_stable(s, ops[j].port(), Seq::empty());
        }
    }
}

proof fn lemma_registering_keeps_fit<O: ArmOpTrait>(
    ops: Seq<O>,
    s: <O::World as Channels>::State,
    i: int,
    waiter: SelectWaiter,
)
    requires
        all_fit(ops, s),
        0 <= i < ops.len(),
    ensures
        ({
            let t = if ops[i].enlists(s) {
                enlisted::<O::World>(s, ops[i].port(), waiter)
            } else {
                s
            };
            all_fit(ops.update(i, ops[i].enrolled(s)), t)
        }),
{
    let port = ops[i].port();
    let waiters = O::World::stack(s, port).push(waiter);
    let after = ops.update(i, ops[i].enrolled(s));
    ops[i].readiness_is_stable(s, port, waiters);
    assert forall|j: int| 0 <= j < ops.len() implies (#[trigger] after[j]).fits(
        if ops[i].enlists(s) {
            enlisted::<O::World>(s, port, waiter)
        } else {
            s
        },
    ) by {
        if j == i {
            after[j].readiness_is_stable(s, port, waiters);
        } else {
            ops[j].readiness_is_stable(s, port, waiters);
        }
    }
}

// ── Laws ─────────────────────────────────────────────────────────────────────
/// A selection with a timeout is over exactly when that much time has passed since its beginning.
pub proof fn law_timeout_counts_from_the_beginning(now: u64, timeout: u64, t: u64)
    requires
        now + timeout <= u64::MAX,
    ensures
        expired(Some(due_at(now, timeout)), t) <==> t - now >= timeout,
{
}

/// A thread that sleeps for the time left wakes up when the deadline is reached and not before;
/// without a deadline it may sleep on.
pub proof fn law_sleep_ends_at_the_deadline(deadline: Option<u64>, now: u64)
    ensures
        time_left(deadline, now) is None <==> deadline is None,
        deadline matches Some(d) ==> {
            &&& now + time_left(deadline, now)->0 == (if d > now {
                d
            } else {
                now
            })
            &&& forall|t: u64|
                t >= now ==> (#[trigger] expired(deadline, t) <==> t >= now + time_left(
                    deadline,
                    now,
                )->0)
        },
        forall|t: u64| #[trigger] expired(None, t) == false,
        forall|d: u64, t: u64| #[trigger] expired(Some(d), t) <==> d <= t,
{
}

/// A waiter for this arm of this call is on the stack and was not aborted.
pub open spec fn waits_for(
    stack: Seq<SelectWaiter>,
    cell: u64,
    case_id: usize,
    thread: u64,
) -> bool {
    stack.contains(SelectWaiter { case_id, selected: cell, thread, aborted: false })
}

/// Some waiter of this call is on the stack and was not aborted.
pub open spec fn live(stack: Seq<SelectWaiter>, cell: u64) -> bool {
    exists|i: int|
        0 <= i < stack.len() && (#[trigger] stack[i]).selected == cell && !stack[i].aborted
}

/// Every waiter on the stack was aborted: no select call waits there.
pub open spec fn all_aborted(stack: Seq<SelectWaiter>) -> bool {
    forall|i: int| 0 <= i < stack.len() ==> (#[trigger] stack[i]).aborted
}

/// No arm is ready.
pub open spec fn none_ready<O: ArmOpTrait>(
    ops: Seq<O>,
    s: <O::World as Channels>::State,
) -> bool {
    forall|i: int| 0 <= i < ops.len() ==> !(#[trigger] ops[i]).ready(s)
}

proof fn lemma_first_ready<O: ArmOpTrait>(
    ops: Seq<O>,
    s: <O::World as Channels>::State,
    start: int,
    from: int,
)
    requires
        0 <= start < ops.len(),
        0 <= from <= ops.len(),
    ensures
        ({
            let n = ops.len() as int;
            let first = first_ready(ops, s, start, from);
            &&& from <= first <= n
            &&& first < n ==> ops[in_sweep(start, first, n)].ready(s)
            &&& forall|i: int|
                from <= i < first ==> !ops[#[trigger] in_sweep(start, i, n)].ready(s)
        }),
    decreases ops.len() - from,
{
    if from < ops.len() && !ops[in_sweep(start, from, ops.len() as int)].ready(s) {
        lemma_first_ready(ops, s, start, from + 1);
    }
}

/// A pass selects an arm exactly if one is ready, and the arm it selects is ready. So a selection
/// that does not wait comes back empty-handed exactly if no arm is ready.
pub proof fn law_selects_a_ready_arm<O: ArmOpTrait>(
    ops: Seq<O>,
    s: <O::World as Channels>::State,
    b: BoardView,
    thread: u64,
    now: u64,
    deadline: Option<u64>,
    r: SelectStep,
    ops_after: Seq<O>,
    s_after: <O::World as Channels>::State,
    b_after: BoardView,
)
    requires
        0 < ops.len() <= usize::MAX,
        pass_step(ops, s, b, thread, now, deadline, r, ops_after, s_after, b_after),
    ensures
        r is Selected <==> !none_ready(ops, s),
        r matches SelectStep::Selected(op) ==> op.index < ops.len()
            && ops[op.index as int].ready(s),
        !(r is Park),
{
    let n = ops.len() as int;
    let start = b.turn as int % n;
    lemma_first_ready(ops, s, start, 0);
    if first_ready(ops, s, start, 0) >= n {
        assert forall|j: int| 0 <= j < n implies !(#[trigger] ops[j]).ready(s) by {
            let i = sweep_place(start, j, n);
            assert(in_sweep(start, i, n) == j);
        }
    }
}

/// A pass gives up only once the deadline is reached, and then only if no arm is ready; without a
/// deadline it never does.
pub proof fn law_gives_up_only_at_the_deadline<O: ArmOpTrait>(
    ops: Seq<O>,
    s: <O::World as Channels>::State,
    b: BoardView,
    thread: u64,
    now: u64,
    deadline: Option<u64>,
    r: SelectStep,
    ops_after: Seq<O>,
    s_after: <O::World as Channels>::State,
    b_after: BoardView,
)
    requires
        0 < ops.len() <= usize::MAX,
        pass_step(ops, s, b, thread, now, deadline, r, ops_after, s_after, b_after),
    ensures
        r is TimedOut <==> none_ready(ops, s) && expired(deadline, now),
{
    law_selects_a_ready_arm(ops, s, b, thread, now, deadline, r, ops_after, s_after, b_after);
}

/// The choice is fair: when all arms are ready, the arm selected is the one whose turn it is, and
/// the turn moves on by one.
pub proof fn law_takes_turns_when_all_ready<O: ArmOpTrait>(
    ops: Seq<O>,
    s: <O::World as Channels>::State,
    b: BoardView,
    thread: u64,
    now: u64,
    deadline: Option<u64>,
    r: SelectStep,
    ops_after: Seq<O>,
    s_after: <O::World as Channels>::State,
    b_after: BoardView,
)
    requires
        0 < ops.len() <= usize::MAX,
        forall|i: int| 0 <= i < ops.len() ==> (#[trigger] ops[i]).ready(s),
        pass_step(ops, s, b, thread, now, deadline, r, ops_after, s_after, b_after),
    ensures
        r matches SelectStep::Selected(op) && op.index == b.turn as int % ops.len() as int,
        b_after.turn == b.turn.wrapping_add(1),
{
    let n = ops.len() as int;
    let start = b.turn as int % n;
    assert(ops[in_sweep(start, 0, n)].ready(s));
}

proof fn lemma_registered<O: ArmOpTrait>(
    ops: Seq<O>,
    s: <O::World as Channels>::State,
    cell: u64,
    thread: u64,
    k: int,
)
    requires
        0 <= k <= ops.len() <= usize::MAX,
        all_fit(ops, s),
        none_ready(ops, s),
    ensures
        ({
            let (o, t) = registered(ops, s, cell, thread, k);
            &&& o.len() == ops.len()
            &&& all_fit(o, t)
            &&& none_ready(o, t)
            &&& forall|j: int| 0 <= j < ops.len() ==> (#[trigger] o[j]).port() == ops[j].port()
            &&& forall|j: int|
                0 <= j < k ==> waits_for(
                    O::World::stack(t, (#[trigger] ops[j]).port()),
                    cell,
                    j as usize,
                    thread,
                )
        }),
    decreases k,
{
    if k > 0 {
        lemma_registered(ops, s, cell, thread, k - 1);
        let (o, t) = registered(ops, s, cell, thread, k - 1);
        let op = o[k - 1];
        let port = op.port();
        let waiter = SelectWaiter {
            case_id: (k - 1) as usize,
            selected: cell,
            thread,
            aborted: false,
        };
        let waiters = O::World::stack(t, port).push(waiter);
        op.readiness_is_stable(t, port, waiters);
        assert(op.enlists(t));
        let u = enlisted::<O::World>(t, port, waiter);
        let p = o.update(k - 1, op.enrolled(t));
        assert((p, u) == registered(ops, s, cell, thread, k));
        assert forall|j: int| 0 <= j < p.len() implies (#[trigger] p[j]).fits(u) && !p[j].ready(u)
            && p[j].port() == ops[j].port() by {
            if j == k - 1 {
                p[j].readiness_is_stable(t, port, waiters);
            } else {
                assert(p[j] == o[j]);
                o[j].readiness_is_stable(t, port, waiters);
            }
        }
        assert forall|j: int| 0 <= j < k implies waits_for(
            O::World::stack(u, (#[trigger] ops[j]).port()),
            cell,
            j as usize,
            thread,
        ) by {
            let other = ops[j].port();
            assert(o[k - 1].port() == ops[k - 1].port());
            O::World::stacks_are_independent(t, port, other, waiters);
            if j == k - 1 {
                assert(waiters[waiters.len() - 1] == waiter);
            } else if other == port {
                let before = O::World::stack(t, port);
                let mine = SelectWaiter {
                    case_id: j as usize,
                    selected: cell,
                    thread,
                    aborted: false,
                };
                let i = choose|i: int| 0 <= i < before.len() && before[i] == mine;
                assert(waiters[i] == mine);
            }
        }
    }
}

/// When a pass registers, no arm was ready, none has become so by registering, and every arm has a
/// waiter of the call under its own index: whatever makes an arm ready finds somebody to wake.
pub proof fn law_registers_every_arm<O: ArmOpTrait>(
    ops: Seq<O>,
    s: <O::World as Channels>::State,
    b: BoardView,
    thread: u64,
    now: u64,
    deadline: Option<u64>,
    call: SelectCall,
    ops_after: Seq<O>,
    s_after: <O::World as Channels>::State,
    b_after: BoardView,
)
    requires
        0 < ops.len() <= usize::MAX,
        all_fit(ops, s),
        pass_step(
            ops,
            s,
            b,
            thread,
            now,
            deadline,
            SelectStep::Registered(call),
            ops_after,
            s_after,
            b_after,
        ),
    ensures
        none_ready(ops, s),
        none_ready(ops_after, s_after),
        b_after.unselected(call.cell()),
        forall|i: int|
            0 <= i < ops.len() ==> (#[trigger] ops_after[i]).port() == ops[i].port() && waits_for(
                O::World::stack(s_after, ops_after[i].port()),
                call.cell(),
                i as usize,
                thread,
            ),
{
    let n = ops.len() as int;
    let start = b.turn as int % n;
    law_selects_a_ready_arm(
        ops,
        s,
        b,
        thread,
        now,
        deadline,
        SelectStep::Registered(call),
        ops_after,
        s_after,
        b_after,
    );
    let looked = looked_at(ops, s, start, n);
    assert forall|j: int| 0 <= j < n implies (#[trigger] looked[j]).fits(s) && !looked[j].ready(s)
        && looked[j].port() == ops[j].port() by {
        ops[j].readiness_is_stable(s, ops[j].port(), Seq::empty());
        assert(!ops[j].ready(s));
    }
    lemma_registered(looked, s, call.cell(), thread, n);
    assert forall|i: int| 0 <= i < n implies (#[trigger] ops_after[i]).port() == ops[i].port()
        && waits_for(
        O::World::stack(s_after, ops_after[i].port()),
        call.cell(),
        i as usize,
        thread,
    ) by {
        assert(looked[i].port() == ops[i].port());
    }
}

pub(crate) proof fn lemma_registered_waiters<O: ArmOpTrait>(
    ops: Seq<O>,
    s: <O::World as Channels>::State,
    cell: u64,
    thread: u64,
    k: int,
    port: <O::World as Channels>::Port,
)
    requires
        0 <= k <= ops.len() <= usize::MAX,
        all_fit(ops, s),
        !live(O::World::stack(s, port), cell),
    ensures
        ({
            let (o, t) = registered(ops, s, cell, thread, k);
            let stack = O::World::stack(t, port);
            &&& o.len() == ops.len()
            &&& all_fit(o, t)
            &&& forall|j: int| k <= j < ops.len() ==> #[trigger] o[j] == ops[j]
            &&& forall|i: int|
                0 <= i < stack.len() && (#[trigger] stack[i]).selected == cell && !stack[i].aborted
                    ==> stack[i].case_id < k && ops[stack[i].case_id as int].port() == port
            &&& all_aborted(O::World::stack(s, port)) ==> forall|i: int|
                0 <= i < stack.len() && !(#[trigger] stack[i]).aborted ==> stack[i].selected == cell
        }),
    decreases k,
{
    if k > 0 {
        lemma_registered_waiters(ops, s, cell, thread, k - 1, port);
        let (o, t) = registered(ops, s, cell, thread, k - 1);
        let op = o[k - 1];
        assert(op == ops[k - 1]);
        let here = op.port();
        let waiter = SelectWaiter {
            case_id: (k - 1) as usize,
            selected: cell,
            thread,
            aborted: false,
        };
        let before = O::World::stack(t, port);
        let waiters = O::World::stack(t, here).push(waiter);
        lemma_registering_keeps_fit(o, t, k - 1, waiter);
        op.readiness_is_stable(t, here, waiters);
        if op.enlists(t) {
            O::World::stacks_are_independent(t, here, port, waiters);
            let stack = O::World::stack(enlisted::<O::World>(t, here, waiter), port);
            if all_aborted(O::World::stack(s, port)) {
                assert forall|i: int|
                    0 <= i < stack.len()
                        && !(#[trigger] stack[i]).aborted implies stack[i].selected == cell by {
                    if here != port || i < before.len() {
                        assert(stack[i] == before[i]);
                    }
                }
            }
            assert forall|i: int|
                0 <= i < stack.len() && (#[trigger] stack[i]).selected == cell
                    && !stack[i].aborted implies stack[i].case_id < k
                && ops[stack[i].case_id as int].port() == port by {
                if here != port || i < before.len() {
                    assert(stack[i] == before[i]);
                }
            }
        }
    }
}

/// The waiters of a call name its arms: if a stack held none of them before, then after the
/// registration each of them that is on the stack carries the index of an arm whose place is this
/// very stack. So an arm that a wake-up selects is one of the call's, on the channel that woke it.
pub proof fn law_waiters_name_their_arm<O: ArmOpTrait>(
    ops: Seq<O>,
    s: <O::World as Channels>::State,
    cell: u64,
    thread: u64,
    port: <O::World as Channels>::Port,
    i: int,
)
    requires
        ops.len() <= usize::MAX,
        all_fit(ops, s),
        !live(O::World::stack(s, port), cell),
        ({
            let stack = O::World::stack(
                registered(ops, s, cell, thread, ops.len() as int).1,
                port,
            );
            0 <= i < stack.len() && stack[i].selected == cell && !stack[i].aborted
        }),
    ensures
        ({
            let stack = O::World::stack(
                registered(ops, s, cell, thread, ops.len() as int).1,
                port,
            );
            stack[i].case_id < ops.len() && ops[stack[i].case_id as int].port() == port
        }),
{
    lemma_registered_waiters(ops, s, cell, thread, ops.len() as int, port);
}

/// The thread parks only if no arm is ready and nobody has claimed the cell; then nothing has been
/// changed.
pub proof fn law_parks_only_if_nothing_is_ready<O: ArmOpTrait>(
    ops: Seq<O>,
    s: <O::World as Channels>::State,
    b: BoardView,
    call: SelectCall,
    r: SelectStep,
    ops_after: Seq<O>,
    s_after: <O::World as Channels>::State,
    b_after: BoardView,
)
    requires
        0 < ops.len() <= usize::MAX,
        b.cells.contains_key(call.cell()),
        recheck_step(ops, s, b, call, r, ops_after, s_after, b_after),
    ensures
        r is Park <==> none_ready(ops, s) && b.unselected(call.cell()),
        r is Park || r is Selected,
        r is Park ==> s_after == s && b_after == b,
{
    let n = ops.len() as int;
    lemma_first_ready(ops, s, 0, 0);
    let first = first_ready(ops, s, 0, 0);
    if first >= n {
        assert forall|j: int| 0 <= j < n implies !(#[trigger] ops[j]).ready(s) by {
            assert(in_sweep(0, j, n) == j);
        }
    } else {
        assert(ops[in_sweep(0, first, n)].ready(s));
        assert(first as usize != UNSELECTED);
    }
}

/// Whoever claimed the cell first wins: a call whose cell was claimed for an arm selects that arm,
/// whatever has happened since.
pub proof fn law_first_claim_wins<O: ArmOpTrait>(
    ops: Seq<O>,
    s: <O::World as Channels>::State,
    b: BoardView,
    now: u64,
    call: SelectCall,
    r: SelectStep,
    ops_after: Seq<O>,
    s_after: <O::World as Channels>::State,
    b_after: BoardView,
)
    requires
        b.cells.contains_key(call.cell()),
        b.cells[call.cell()] != UNSELECTED,
    ensures
        recheck_step(ops, s, b, call, r, ops_after, s_after, b_after) ==> r
            == SelectStep::Selected(SelectedOperation { index: b.cells[call.cell()] }),
        resume_step(ops, s, b, now, call, r, ops_after, s_after, b_after) ==> r
            == SelectStep::Selected(SelectedOperation { index: b.cells[call.cell()] }),
{
}

proof fn lemma_unregistered<O: ArmOpTrait>(
    ops: Seq<O>,
    s: <O::World as Channels>::State,
    cell: u64,
    k: int,
    port: <O::World as Channels>::Port,
)
    requires
        0 <= k <= ops.len(),
        O::World::has_port(s, port),
    ensures
        ({
            let t = unregistered(ops, s, cell, k);
            let before = O::World::stack(s, port);
            let after = O::World::stack(t, port);
            &&& O::World::has_port(t, port)
            &&& after == before || after == aborted(before, cell)
            &&& (exists|j: int| 0 <= j < k && (#[trigger] ops[j]).port() == port) ==> after
                == aborted(before, cell)
        }),
    decreases k,
{
    if k > 0 {
        lemma_unregistered(ops, s, cell, k - 1, port);
        let t = unregistered(ops, s, cell, k - 1);
        let here = ops[k - 1].port();
        let before = O::World::stack(s, port);
        assert(aborted(aborted(before, cell), cell) =~= aborted(before, cell));
        if O::World::has_port(t, here) {
            let waiters = aborted(O::World::stack(t, here), cell);
            O::World::stacks_are_independent(t, here, port, waiters);
        }
    }
}

/// No waiter is left behind: when a call ends, whether an arm was selected or the time was up, none
/// of its waiters at any of its arms can wake anybody any more, and the waiters of other calls are
/// as they were.
pub proof fn law_no_waiter_is_left_behind<O: ArmOpTrait>(
    ops: Seq<O>,
    s: <O::World as Channels>::State,
    cell: u64,
    i: int,
)
    requires
        0 <= i < ops.len(),
        O::World::has_port(s, ops[i].port()),
    ensures
        ({
            let before = O::World::stack(s, ops[i].port());
            let after = O::World::stack(
                unregistered(ops, s, cell, ops.len() as int),
                ops[i].port(),
            );
            &&& !live(after, cell)
            &&& forall|other: u64, case_id: usize, thread: u64|
                other != cell ==> #[trigger] waits_for(after, other, case_id, thread) == waits_for(
                    before,
                    other,
                    case_id,
                    thread,
                )
        }),
{
    let port = ops[i].port();
    lemma_unregistered(ops, s, cell, ops.len() as int, port);
    let before = O::World::stack(s, port);
    let after = O::World::stack(unregistered(ops, s, cell, ops.len() as int), port);
    assert(after == aborted(before, cell));
    assert forall|other: u64, case_id: usize, thread: u64|
        other != cell implies #[trigger] waits_for(after, other, case_id, thread) == waits_for(
        before,
        other,
        case_id,
        thread,
    ) by {
        let w = SelectWaiter { case_id, selected: other, thread, aborted: false };
        if after.contains(w) {
            let j = choose|j: int| 0 <= j < after.len() && after[j] == w;
            assert(before[j] == w);
        }
        if before.contains(w) {
            let j = choose|j: int| 0 <= j < before.len() && before[j] == w;
            assert(after[j] == w);
        }
    }
}

// ── What the steps do ────────────────────────────────────────────────────────
/// How many steps upwards, round from the last arm to the first, lead from one arm to another.
pub open spec fn steps_round(from: int, to: int, n: int) -> int {
    if to >= from {
        to - from
    } else {
        to - from + n
    }
}

/// A pass that selects takes the first ready arm that comes upwards and round from the arm whose
/// turn it is. It changes nothing in the channels, and on the board only the turn; of the arms it
/// has looked at those up to the one it took, and not touched the others.
pub proof fn law_pass_takes_the_next_ready_arm<O: ArmOpTrait>(
    ops: Seq<O>,
    s: <O::World as Channels>::State,
    b: BoardView,
    thread: u64,
    now: u64,
    deadline: Option<u64>,
    op: SelectedOperation,
    ops_after: Seq<O>,
    s_after: <O::World as Channels>::State,
    b_after: BoardView,
)
    requires
        0 < ops.len() <= usize::MAX,
        pass_step(
            ops,
            s,
            b,
            thread,
            now,
            deadline,
            SelectStep::Selected(op),
            ops_after,
            s_after,
            b_after,
        ),
    ensures
        ({
            let n = ops.len() as int;
            let turn = b.turn as int % n;
            &&& op.index < n
            &&& ops[op.index as int].ready(s)
            &&& forall|j: int|
                0 <= j < n && (#[trigger] ops[j]).ready(s) ==> steps_round(turn, op.index as int, n)
                    <= steps_round(turn, j, n)
            &&& s_after == s
            &&& b_after.cells == b.cells
            &&& b_after.unparked == b.unparked
            &&& b_after.turn == b.turn.wrapping_add(1)
            &&& ops_after.len() == n
            &&& forall|j: int|
                0 <= j < n ==> #[trigger] ops_after[j] == (if steps_round(turn, j, n)
                    <= steps_round(turn, op.index as int, n) {
                    ops[j].looked(s)
                } else {
                    ops[j]
                })
        }),
{
    let n = ops.len() as int;
    let turn = b.turn as int % n;
    lemma_first_ready(ops, s, turn, 0);
    let first = first_ready(ops, s, turn, 0);
    assert(steps_round(turn, in_sweep(turn, first, n), n) == first);
    assert forall|j: int| 0 <= j < n && (#[trigger] ops[j]).ready(s) implies first <= steps_round(
        turn,
        j,
        n,
    ) by {
        let i = steps_round(turn, j, n);
        assert(in_sweep(turn, i, n) == j);
    }
}

/// A pass that selects nothing has looked at every arm. If it gives up, it changes nothing in the
/// channels and only the turn of the board; that is exactly if no arm is ready and the deadline is
/// there and not later than now. If it registers, it opens one fresh cell, records the thread and
/// the deadline, which is not reached, and unparks nobody.
pub proof fn law_pass_without_a_ready_arm<O: ArmOpTrait>(
    ops: Seq<O>,
    s: <O::World as Channels>::State,
    b: BoardView,
    thread: u64,
    now: u64,
    deadline: Option<u64>,
    r: SelectStep,
    ops_after: Seq<O>,
    s_after: <O::World as Channels>::State,
    b_after: BoardView,
)
    requires
        0 < ops.len() <= usize::MAX,
        pass_step(ops, s, b, thread, now, deadline, r, ops_after, s_after, b_after),
    ensures
        r is TimedOut <==> (forall|i: int| 0 <= i < ops.len() ==> !(#[trigger] ops[i]).ready(s))
            && deadline is Some && deadline->0 <= now,
        r is Registered <==> (forall|i: int| 0 <= i < ops.len() ==> !(#[trigger] ops[i]).ready(s))
            && (deadline is None || deadline->0 > now),
        r is TimedOut ==> {
            &&& s_after == s
            &&& b_after.cells == b.cells
            &&& b_after.unparked == b.unparked
            &&& ops_after.len() == ops.len()
            &&& forall|j: int|
                0 <= j < ops.len() ==> #[trigger] ops_after[j] == ops[j].looked(s)
        },
        r matches SelectStep::Registered(call) ==> {
            &&& call.thread() == thread
            &&& call.deadline() == deadline
            &&& !b.cells.contains_key(call.cell())
            &&& b_after.cells == b.cells.insert(call.cell(), usize::MAX)
            &&& b_after.unparked == b.unparked
        },
        b_after.turn == b.turn.wrapping_add(1),
        !(r is Park),
{
    law_selects_a_ready_arm(ops, s, b, thread, now, deadline, r, ops_after, s_after, b_after);
    let n = ops.len() as int;
    let turn = b.turn as int % n;
    if r is TimedOut {
        assert forall|j: int| 0 <= j < n implies #[trigger] ops_after[j] == ops[j].looked(s) by {
            assert(sweep_place(turn, j, n) < n);
        }
    }
}

/// Registering goes arm by arm: each adds its waiter, with its own index and the call's cell and
/// thread, on top of the stack at its own place, unless it leaves none; and it changes no other
/// arm.
pub proof fn law_each_arm_adds_its_waiter<O: ArmOpTrait>(
    ops: Seq<O>,
    s: <O::World as Channels>::State,
    cell: u64,
    thread: u64,
    k: int,
)
    requires
        0 <= k < ops.len() <= usize::MAX,
    ensures
        registered(ops, s, cell, thread, 0) == (ops, s),
        ({
            let (before, t) = registered(ops, s, cell, thread, k);
            let (after, u) = registered(ops, s, cell, thread, k + 1);
            let port = before[k].port();
            &&& after == before.update(k, before[k].enrolled(t))
            &&& before[k].enlists(t) ==> u == O::World::with_stack(
                t,
                port,
                O::World::stack(t, port).push(
                    SelectWaiter { case_id: k as usize, selected: cell, thread, aborted: false },
                ),
            )
            &&& !before[k].enlists(t) ==> u == t
        }),
{
}

/// Unregistering goes arm by arm: each marks the call's waiters on the stack at its own place,
/// where it has one, and changes nothing else.
pub proof fn law_each_arm_aborts_its_waiters<O: ArmOpTrait>(
    ops: Seq<O>,
    s: <O::World as Channels>::State,
    cell: u64,
    k: int,
)
    requires
        0 <= k < ops.len(),
    ensures
        unregistered(ops, s, cell, 0) == s,
        ({
            let before = unregistered(ops, s, cell, k);
            let after = unregistered(ops, s, cell, k + 1);
            let port = ops[k].port();
            &&& O::World::has_port(before, port) ==> after == O::World::with_stack(
                before,
                port,
                O::World::stack(before, port).map_values(
                    |w: SelectWaiter|
                        SelectWaiter {
                            case_id: w.case_id,
                            selected: w.selected,
                            thread: w.thread,
                            aborted: w.aborted || w.selected == cell,
                        },
                ),
            )
            &&& !O::World::has_port(before, port) ==> after == before
        }),
{
    let before = unregistered(ops, s, cell, k);
    let stack = O::World::stack(before, ops[k].port());
    assert(aborted(stack, cell) =~= stack.map_values(
        |w: SelectWaiter|
            SelectWaiter {
                case_id: w.case_id,
                selected: w.selected,
                thread: w.thread,
                aborted: w.aborted || w.selected == cell,
            },
    ));
}

/// The second look of a call selects: if somebody has claimed the cell, the arm it was claimed for;
/// else the ready arm with the lowest index; with neither it parks and changes nothing. When it
/// selects, the cell is closed, nobody is unparked, and the waiters are unregistered.
pub proof fn law_second_look_takes_the_lowest_ready_arm<O: ArmOpTrait>(
    ops: Seq<O>,
    s: <O::World as Channels>::State,
    b: BoardView,
    call: SelectCall,
    r: SelectStep,
    ops_after: Seq<O>,
    s_after: <O::World as Channels>::State,
    b_after: BoardView,
)
    requires
        0 < ops.len() <= usize::MAX,
        b.cells.contains_key(call.cell()),
        recheck_step(ops, s, b, call, r, ops_after, s_after, b_after),
    ensures
        b.cells[call.cell()] != usize::MAX ==> r == SelectStep::Selected(
            SelectedOperation { index: b.cells[call.cell()] },
        ),
        b.cells[call.cell()] == usize::MAX ==> forall|i: int|
            0 <= i < ops.len() && (#[trigger] ops[i]).ready(s) && (forall|j: int|
                0 <= j < i ==> !(#[trigger] ops[j]).ready(s)) ==> r == SelectStep::Selected(
                SelectedOperation { index: i as usize },
            ),
        b.cells[call.cell()] == usize::MAX && (forall|i: int|
            0 <= i < ops.len() ==> !(#[trigger] ops[i]).ready(s)) ==> r == SelectStep::Park(call)
            && s_after == s && b_after == b,
        r is Selected ==> {
            &&& b_after.cells == b.cells.remove(call.cell())
            &&& s_after == unregistered(ops_after, s, call.cell(), ops.len() as int)
        },
        b_after.unparked == b.unparked,
        b_after.turn == b.turn,
        ops_after.len() == ops.len(),
        forall|k: int|
            0 <= k < ops.len() ==> #[trigger] ops_after[k] == (if exists|j: int|
                0 <= j < k && (#[trigger] ops[j]).ready(s) {
                ops[k]
            } else {
                ops[k].looked(s)
            }),
{
    let n = ops.len() as int;
    let cell = call.cell();
    lemma_first_ready(ops, s, 0, 0);
    let first = first_ready(ops, s, 0, 0);
    assert forall|i: int|
        0 <= i < n && (#[trigger] ops[i]).ready(s) && (forall|j: int|
            0 <= j < i ==> !(#[trigger] ops[j]).ready(s)) implies first == i by {
        assert(in_sweep(0, i, n) == i);
        if first < i {
            assert(in_sweep(0, first, n) == first);
        }
    }
    assert forall|k: int| 0 <= k < n implies #[trigger] ops_after[k] == (if exists|j: int|
        0 <= j < k && (#[trigger] ops[j]).ready(s) {
        ops[k]
    } else {
        ops[k].looked(s)
    }) by {
        if k > first {
            assert(in_sweep(0, first, n) == first);
            assert(ops[first].ready(s));
        } else {
            assert forall|j: int| 0 <= j < k implies !(#[trigger] ops[j]).ready(s) by {
                assert(in_sweep(0, j, n) == j);
            }
        }
    }
    if first < n {
        assert(in_sweep(0, first, n) == first);
        assert(b.claim(cell, first as usize).cells.remove(cell) =~= b.cells.remove(cell));
    }
}

/// Going on after parking: if somebody has claimed the cell, the arm it was claimed for is
/// selected. If nobody has, the call gives up if its deadline is there and not later than now; else
/// it makes another pass, with the same thread and deadline. In all cases the waiters are
/// unregistered and the cell is closed first.
pub proof fn law_going_on_selects_the_claimant<O: ArmOpTrait>(
    ops: Seq<O>,
    s: <O::World as Channels>::State,
    b: BoardView,
    now: u64,
    call: SelectCall,
    r: SelectStep,
    ops_after: Seq<O>,
    s_after: <O::World as Channels>::State,
    b_after: BoardView,
)
    requires
        b.cells.contains_key(call.cell()),
        resume_step(ops, s, b, now, call, r, ops_after, s_after, b_after),
    ensures
        b.cells[call.cell()] != usize::MAX ==> r == SelectStep::Selected(
            SelectedOperation { index: b.cells[call.cell()] },
        ),
        b.cells[call.cell()] == usize::MAX && call.deadline() is Some && call.deadline()->0 <= now
            ==> r is TimedOut,
        b.cells[call.cell()] != usize::MAX || (call.deadline() is Some && call.deadline()->0 <= now)
            ==> {
            &&& ops_after == ops
            &&& s_after == unregistered(ops, s, call.cell(), ops.len() as int)
            &&& b_after.cells == b.cells.remove(call.cell())
            &&& b_after.unparked == b.unparked
            &&& b_after.turn == b.turn
        },
        b.cells[call.cell()] == usize::MAX && (call.deadline() is None || call.deadline()->0 > now)
            ==> pass_step(
            ops,
            unregistered(ops, s, call.cell(), ops.len() as int),
            BoardView { cells: b.cells.remove(call.cell()), ..b },
            call.thread(),
            now,
            call.deadline(),
            r,
            ops_after,
            s_after,
            b_after,
        ),
{
}

/// A recv arm or a send arm in a set of arms is just that arm.
pub proof fn law_any_arm_is_the_arm<A: ArmOpTrait, B: ArmOpTrait<World = A::World>>(
    rx: A,
    tx: B,
    s: <A::World as Channels>::State,
)
    ensures
        AnyOp::<A, B>::Recv(rx).ready(s) == rx.ready(s),
        AnyOp::<A, B>::Send(tx).ready(s) == tx.ready(s),
        AnyOp::<A, B>::Recv(rx).fits(s) == rx.fits(s),
        AnyOp::<A, B>::Send(tx).fits(s) == tx.fits(s),
        AnyOp::<A, B>::Recv(rx).enlists(s) == rx.enlists(s),
        AnyOp::<A, B>::Send(tx).enlists(s) == tx.enlists(s),
        AnyOp::<A, B>::Recv(rx).port() == rx.port(),
        AnyOp::<A, B>::Send(tx).port() == tx.port(),
        AnyOp::<A, B>::Recv(rx).looked(s) == AnyOp::<A, B>::Recv(rx.looked(s)),
        AnyOp::<A, B>::Send(tx).looked(s) == AnyOp::<A, B>::Send(tx.looked(s)),
        AnyOp::<A, B>::Recv(rx).enrolled(s) == AnyOp::<A, B>::Recv(rx.enrolled(s)),
        AnyOp::<A, B>::Send(tx).enrolled(s) == AnyOp::<A, B>::Send(tx.enrolled(s)),
{
}

} // verus!
