//! A parked select is woken.
//!
//! A select call that parks has left waiters at its arms, all with one selection cell. The laws
//! here say that the steps of a channel serve such a call: as long as nobody has claimed the cell,
//! they leave its waiters where they are; and a step that makes one of its arms ready claims the
//! cell for an arm of the call on that channel and unparks its thread. This holds where the call is
//! the only one with waiters on the stack; a wake-up that serves one call takes the waiters of
//! others off the stack unwoken.
use vstd::prelude::*;

use crate::bounded_broadcast::{BroadcastView, Receiver as BroadcastReceiver};
use crate::bounded_mpsc::TimerView;
use crate::buffer::BufferView;
use crate::liveness::{lemma_without, unused};
use crate::oneshot::{OneshotView, SenderState};
use crate::ports::Port;
use crate::rendezvous::{unparked_senders, Parked, RendezvousView};
use crate::select::{
    all_aborted, all_fit, law_registers_every_arm, lemma_looking_keeps_fit,
    lemma_registered_waiters, live, looked_at, pass_step, waits_for, SelectCall, SelectStep,
};
use crate::selectable::{ArmOpTrait, Channels};
use crate::waiter::{
    first_unselected, law_wake_all_settles_every_arm, law_wake_all_unparks_everyone,
    law_wakeups_name_a_waiter, law_wakeups_touch_only_waited_cells,
    lemma_first_unselected_is_first, nudged, pending, threads_of, without, woken_all, woken_one,
    BoardView, RecvWaiter, SelectWaiter, UNSELECTED,
};
use crate::watch::{Receiver as WatchReceiver, WatchView};

verus! {

/// What a channel and the board show of one arm of a select call.
pub struct ArmSnapshot {
    /// The waiters on the side where the arm waits.
    pub stack: Seq<SelectWaiter>,
    /// The waiters on all sides of the channel.
    pub all: Seq<SelectWaiter>,
    /// The blocked receives.
    pub recv: Seq<RecvWaiter>,
    /// The arm is ready.
    pub ready: bool,
    pub board: BoardView,
}

/// Every waiter on the stack that was not aborted belongs to the call with this cell, and carries
/// the index of an arm.
pub open spec fn serves_only(stack: Seq<SelectWaiter>, cell: u64) -> bool {
    forall|i: int|
        0 <= i < stack.len() && !(#[trigger] stack[i]).aborted ==> stack[i].selected == cell
            && stack[i].case_id != UNSELECTED
}

/// The thread was unparked between two states of the board.
pub open spec fn unparked_since(before: BoardView, after: BoardView, thread: u64) -> bool {
    exists|i: int|
        before.unparked.len() <= i < after.unparked.len() && #[trigger] after.unparked[i] == thread
}

/// The cell was claimed for the arm of one of the waiters, and the waiter's thread was unparked.
pub open spec fn claimed_for(
    waiters: Seq<SelectWaiter>,
    before: BoardView,
    after: BoardView,
    cell: u64,
) -> bool {
    exists|k: int|
        {
            &&& 0 <= k < waiters.len()
            &&& (#[trigger] waiters[k]).selected == cell
            &&& !waiters[k].aborted
            &&& after.cells.contains_key(cell)
            &&& after.cells[cell] == waiters[k].case_id
            &&& unparked_since(before, after, waiters[k].thread)
        }
}

/// The call with this cell waits on the arm's side of the channel, alone: nobody has claimed the
/// cell, and no blocked receive shares it.
pub open spec fn waits_alone(arm: ArmSnapshot, cell: u64) -> bool {
    &&& arm.board.unselected(cell)
    &&& serves_only(arm.stack, cell)
    &&& live(arm.stack, cell)
    &&& unused(arm.recv, cell)
}

/// A step of the channel serves a call that waits alone: while it leaves the cell unclaimed, it
/// leaves the waiters where they are and does not make the arm ready; if it claims the cell, then
/// for an arm of the call on this channel, whose thread it unparks; and if it makes the arm ready,
/// then it claims the cell for an arm on this very side.
pub open spec fn serves(before: ArmSnapshot, after: ArmSnapshot, cell: u64) -> bool {
    waits_alone(before, cell) ==> if after.board.unselected(cell) {
        after.stack == before.stack && (after.ready ==> before.ready) && unused(after.recv, cell)
    } else {
        &&& claimed_for(before.all, before.board, after.board, cell)
        &&& after.ready && !before.ready ==> claimed_for(
            before.stack,
            before.board,
            after.board,
            cell,
        )
    }
}

/// Something happened in another channel.
pub open spec fn elsewhere(before: ArmSnapshot, after: ArmSnapshot) -> bool {
    after.stack == before.stack && after.all == before.all && after.recv == before.recv
        && after.ready == before.ready
}

// ── Waking arms ──────────────────────────────────────────────────────────────
proof fn lemma_pending_is_on_stack(stack: Seq<SelectWaiter>, k: int) -> (j: int)
    requires
        0 <= k < pending(stack).len(),
    ensures
        0 <= j < stack.len(),
        !stack[j].aborted,
        stack[j].arm() == pending(stack)[k],
    decreases stack.len(),
{
    let rest = stack.drop_last();
    if stack.last().aborted {
        let j = lemma_pending_is_on_stack(rest, k);
        assert(rest[j] == stack[j]);
        j
    } else if k == 0 {
        stack.len() - 1
    } else {
        let j = lemma_pending_is_on_stack(rest, k - 1);
        assert(rest[j] == stack[j]);
        j
    }
}

proof fn lemma_on_stack_is_pending(stack: Seq<SelectWaiter>, j: int) -> (k: int)
    requires
        0 <= j < stack.len(),
        !stack[j].aborted,
    ensures
        0 <= k < pending(stack).len(),
        pending(stack)[k] == stack[j].arm(),
    decreases stack.len(),
{
    let rest = stack.drop_last();
    if j == stack.len() - 1 {
        0
    } else {
        assert(rest[j] == stack[j]);
        let k = lemma_on_stack_is_pending(rest, j);
        if stack.last().aborted {
            k
        } else {
            k + 1
        }
    }
}

/// Whoever changes an unclaimed cell unparks the thread of the waiter whose index it wrote.
proof fn lemma_claim_unparks(ws: Seq<RecvWaiter>, b: BoardView, cell: u64)
    requires
        b.unselected(cell),
    ensures
        woken_one(ws, b).cells.contains_key(cell),
        woken_all(ws, b).cells.contains_key(cell),
        !woken_one(ws, b).unselected(cell) ==> exists|k: int|
            {
                &&& 0 <= k < ws.len()
                &&& (#[trigger] ws[k]).selected == cell
                &&& woken_one(ws, b).cells[cell] == ws[k].case_id
                &&& unparked_since(b, woken_one(ws, b), ws[k].thread)
            },
        !woken_all(ws, b).unselected(cell) ==> exists|k: int|
            {
                &&& 0 <= k < ws.len()
                &&& (#[trigger] ws[k]).selected == cell
                &&& woken_all(ws, b).cells[cell] == ws[k].case_id
                &&& unparked_since(b, woken_all(ws, b), ws[k].thread)
            },
{
    law_wakeups_touch_only_waited_cells(ws, b);
    assert(b.cells.dom().contains(cell));
    assert(woken_one(ws, b).cells.dom().contains(cell));
    assert(woken_all(ws, b).cells.dom().contains(cell));
    lemma_first_unselected_is_first(ws, b);
    if !woken_one(ws, b).unselected(cell) {
        let k = first_unselected(ws, b) as int;
        assert(ws[k].selected == cell);
        assert(woken_one(ws, b).unparked[b.unparked.len() as int] == ws[k].thread);
    }
    if !woken_all(ws, b).unselected(cell) {
        law_wakeups_name_a_waiter(ws, b, cell);
        law_wake_all_unparks_everyone(ws, b);
        let held = woken_all(ws, b).cells[cell];
        let k = choose|k: int|
            0 <= k < ws.len() && (#[trigger] ws[k]).selected == cell && ws[k].case_id == held;
        assert(woken_all(ws, b).unparked[b.unparked.len() + k] == threads_of(ws)[k]);
    }
}

/// Waking the arms of one side serves a call that waits there alone.
proof fn lemma_arms_woken(stack: Seq<SelectWaiter>, b0: BoardView, b: BoardView, cell: u64)
    requires
        b.unselected(cell),
        b0.unparked.len() <= b.unparked.len(),
    ensures
        ({
            let one = woken_one(pending(stack), b);
            let all = woken_all(pending(stack), b);
            &&& !one.unselected(cell) ==> claimed_for(stack, b0, one, cell)
            &&& !all.unselected(cell) ==> claimed_for(stack, b0, all, cell)
            &&& serves_only(stack, cell) && live(stack, cell) ==> !one.unselected(cell)
                && !all.unselected(cell)
        }),
{
    let ws = pending(stack);
    let one = woken_one(ws, b);
    let all = woken_all(ws, b);
    lemma_claim_unparks(ws, b, cell);
    if !one.unselected(cell) {
        let k = choose|k: int|
            {
                &&& 0 <= k < ws.len()
                &&& (#[trigger] ws[k]).selected == cell
                &&& one.cells[cell] == ws[k].case_id
                &&& unparked_since(b, one, ws[k].thread)
            };
        lemma_claimed_through(stack, k, b0, b, one, cell);
    }
    if !all.unselected(cell) {
        let k = choose|k: int|
            {
                &&& 0 <= k < ws.len()
                &&& (#[trigger] ws[k]).selected == cell
                &&& all.cells[cell] == ws[k].case_id
                &&& unparked_since(b, all, ws[k].thread)
            };
        lemma_claimed_through(stack, k, b0, b, all, cell);
    }
    if serves_only(stack, cell) && live(stack, cell) {
        let j = choose|j: int|
            0 <= j < stack.len() && (#[trigger] stack[j]).selected == cell && !stack[j].aborted;
        let k = lemma_on_stack_is_pending(stack, j);
        assert(ws[k].selected == cell && ws[k].case_id != UNSELECTED);
        law_wake_all_settles_every_arm(ws, b, k);
        lemma_first_unselected_is_first(ws, b);
        let first = first_unselected(ws, b) as int;
        assert(first <= k);
        let i = lemma_pending_is_on_stack(stack, first);
        assert(ws[first].case_id == stack[i].case_id);
    }
}

proof fn lemma_claimed_through(
    stack: Seq<SelectWaiter>,
    k: int,
    b0: BoardView,
    b: BoardView,
    after: BoardView,
    cell: u64,
)
    requires
        0 <= k < pending(stack).len(),
        pending(stack)[k].selected == cell,
        after.cells.contains_key(cell),
        after.cells[cell] == pending(stack)[k].case_id,
        b0.unparked.len() <= b.unparked.len(),
        unparked_since(b, after, pending(stack)[k].thread),
    ensures
        claimed_for(stack, b0, after, cell),
{
    let j = lemma_pending_is_on_stack(stack, k);
    let thread = pending(stack)[k].thread;
    let i = choose|i: int|
        b.unparked.len() <= i < after.unparked.len() && #[trigger] after.unparked[i] == thread;
    assert(b0.unparked.len() <= i);
    assert(after.unparked[i] == stack[j].thread);
    assert(unparked_since(b0, after, stack[j].thread));
    assert(stack[j].selected == cell);
}

/// Waking blocked receives on other cells does not touch the cell.
proof fn lemma_receives_woken(recv: Seq<RecvWaiter>, b: BoardView, cell: u64)
    requires
        b.unselected(cell),
        unused(recv, cell),
    ensures
        woken_one(recv, b).unselected(cell),
        woken_all(recv, b).unselected(cell),
        nudged(recv, b).unselected(cell),
        b.unparked.len() <= woken_one(recv, b).unparked.len(),
        b.unparked.len() <= woken_all(recv, b).unparked.len(),
        b.unparked.len() <= nudged(recv, b).unparked.len(),
{
    law_wakeups_touch_only_waited_cells(recv, b);
    assert(b.cells.dom().contains(cell));
    assert(woken_one(recv, b).cells.dom().contains(cell));
    assert(woken_all(recv, b).cells.dom().contains(cell));
    assert(woken_all(recv, b).cells[cell] == b.cells[cell]);
    law_wake_all_unparks_everyone(recv, b);
}

proof fn lemma_claimed_for_more(
    part: Seq<SelectWaiter>,
    before_part: Seq<SelectWaiter>,
    after_part: Seq<SelectWaiter>,
    b0: BoardView,
    after: BoardView,
    cell: u64,
)
    requires
        claimed_for(part, b0, after, cell),
    ensures
        claimed_for(before_part + part + after_part, b0, after, cell),
{
    let k = choose|k: int|
        {
            &&& 0 <= k < part.len()
            &&& (#[trigger] part[k]).selected == cell
            &&& !part[k].aborted
            &&& after.cells.contains_key(cell)
            &&& after.cells[cell] == part[k].case_id
            &&& unparked_since(b0, after, part[k].thread)
        };
    let all = before_part + part + after_part;
    assert(all[before_part.len() + k] == part[k]);
}

proof fn lemma_claimed_on_a_side(
    first: Seq<SelectWaiter>,
    second: Seq<SelectWaiter>,
    b0: BoardView,
    after: BoardView,
    cell: u64,
)
    requires
        claimed_for(first, b0, after, cell) || claimed_for(second, b0, after, cell),
    ensures
        claimed_for(first + second, b0, after, cell),
{
    if claimed_for(first, b0, after, cell) {
        lemma_claimed_for_more(first, Seq::empty(), second, b0, after, cell);
        assert(Seq::<SelectWaiter>::empty() + first + second =~= first + second);
    } else {
        lemma_claimed_for_more(second, first, Seq::empty(), b0, after, cell);
        assert(first + second + Seq::<SelectWaiter>::empty() =~= first + second);
    }
}

// ── The course of a parked call ──────────────────────────────────────────────
/// The step at which the cell of a parked call was claimed: until then the arm's waiters were where
/// they had been and the arm was not ready. If it was a step of this channel, it claimed the cell
/// for an arm on the channel and unparked the thread; and if it made the arm ready, then for an arm
/// on the same side.
pub open spec fn served_at(trace: Seq<ArmSnapshot>, k: int, cell: u64) -> bool {
    &&& 0 <= k < trace.len() - 1
    &&& still_parked(trace[k], trace[0], cell)
    &&& !trace[k + 1].board.unselected(cell)
    &&& elsewhere(trace[k], trace[k + 1]) || claimed_for(
        trace[k].all,
        trace[k].board,
        trace[k + 1].board,
        cell,
    )
    &&& trace[k + 1].ready ==> claimed_for(
        trace[k].stack,
        trace[k].board,
        trace[k + 1].board,
        cell,
    )
}

/// Nothing has happened yet: the cell is unclaimed, the waiters are where they were at first, and
/// the arm is not ready.
pub open spec fn still_parked(now: ArmSnapshot, first: ArmSnapshot, cell: u64) -> bool {
    &&& waits_alone(now, cell)
    &&& now.stack == first.stack
    &&& !now.ready
}

/// A parked select is woken. Take a call that waits on an arm which is not ready, alone on its side
/// of the channel and with its cell unclaimed, and any number of steps that serve it, as long as it
/// waits, or happen elsewhere. As long as the cell is unclaimed, the waiters stay and the arm is
/// not ready. So once the arm is ready, the cell has been claimed; and unless that happened in
/// another channel, it was claimed for an arm of the call on this one, and the thread was unparked.
pub proof fn law_parked_select_is_woken(trace: Seq<ArmSnapshot>, cell: u64)
    requires
        trace.len() > 0,
        waits_alone(trace[0], cell),
        !trace[0].ready,
        forall|k: int|
            0 <= k < trace.len() - 1 ==> serves(#[trigger] trace[k], trace[k + 1], cell)
                || elsewhere(trace[k], trace[k + 1]),
    ensures
        (exists|k: int| served_at(trace, k, cell)) || (forall|k: int|
            0 <= k < trace.len() ==> still_parked(#[trigger] trace[k], trace[0], cell)),
        trace.last().ready || !trace.last().board.unselected(cell) ==> exists|k: int|
            served_at(trace, k, cell),
{
    lemma_until_served(trace, cell, trace.len() - 1);
    assert(trace.last() == trace[trace.len() - 1]);
}

proof fn lemma_until_served(trace: Seq<ArmSnapshot>, cell: u64, m: int)
    requires
        0 <= m < trace.len(),
        waits_alone(trace[0], cell),
        !trace[0].ready,
        forall|k: int|
            0 <= k < trace.len() - 1 ==> serves(#[trigger] trace[k], trace[k + 1], cell)
                || elsewhere(trace[k], trace[k + 1]),
    ensures
        (exists|k: int| served_at(trace, k, cell)) || (forall|k: int|
            0 <= k <= m ==> still_parked(#[trigger] trace[k], trace[0], cell)),
    decreases m,
{
    if m > 0 {
        lemma_until_served(trace, cell, m - 1);
        if !(exists|k: int| served_at(trace, k, cell)) {
            let before = trace[m - 1];
            assert(still_parked(before, trace[0], cell));
            assert(serves(before, trace[m - 1 + 1], cell) || elsewhere(before, trace[m - 1 + 1]));
            if !trace[m].board.unselected(cell) {
                assert(served_at(trace, m - 1, cell));
            }
        }
    }
}

/// A call that registers where no other waits then waits alone: at every arm whose side of the
/// channel had no waiters of other calls, all live waiters are its own and there is one, its cell
/// is unclaimed, and the arm is not ready.
pub proof fn law_registered_call_waits_alone<O: ArmOpTrait>(
    ops: Seq<O>,
    s: <O::World as Channels>::State,
    b: BoardView,
    thread: u64,
    now: u64,
    deadline: Option<u64>,
    call: SelectCall,
    ops_after: Seq<O>,
    s_after: <O::World as Channels>::State,
    b_after: BoardView,
    i: int,
)
    requires
        0 < ops.len() <= usize::MAX,
        all_fit(ops, s),
        pass_step(
            ops,
            s,
            b,
            thread,
            now,
            deadline,
            SelectStep::Registered(call),
            ops_after,
            s_after,
            b_after,
        ),
        0 <= i < ops.len(),
        all_aborted(O::World::stack(s, ops[i].port())),
    ensures
        ({
            let stack = O::World::stack(s_after, ops_after[i].port());
            &&& serves_only(stack, call.cell())
            &&& live(stack, call.cell())
            &&& b_after.unselected(call.cell())
            &&& !ops_after[i].ready(s_after)
        }),
{
    law_registers_every_arm(
        ops,
        s,
        b,
        thread,
        now,
        deadline,
        call,
        ops_after,
        s_after,
        b_after,
    );
    let n = ops.len() as int;
    let start = b.turn as int % n;
    let port = ops[i].port();
    let cell = call.cell();
    let looked = looked_at(ops, s, start, n);
    lemma_looking_keeps_fit(ops, s, start);
    assert(all_fit(looked, s));
    lemma_registered_waiters(looked, s, cell, thread, n, port);
    assert(ops_after[i].port() == port);
    let stack = O::World::stack(s_after, port);
    let mine = SelectWaiter { case_id: i as usize, selected: cell, thread, aborted: false };
    assert(waits_for(stack, cell, i as usize, thread));
    let k = choose|k: int| 0 <= k < stack.len() && stack[k] == mine;
    assert(stack[k].selected == cell && !stack[k].aborted);
    assert forall|j: int| 0 <= j < stack.len() && !(#[trigger] stack[j]).aborted implies stack[
    j].selected == cell && stack[j].case_id != UNSELECTED by {
        assert(stack[j].case_id < n);
    }
}

// ── Queue channels ───────────────────────────────────────────────────────────
/// An arm on one side of a queue channel.
pub open spec fn queue_arm<T>(s: BufferView<T>, b: BoardView, port: Port) -> ArmSnapshot {
    ArmSnapshot {
        stack: s.stack(port),
        all: s.stack(Port::Recv) + s.stack(Port::Send),
        recv: s.ports.recv_waiters,
        ready: match port {
            Port::Recv => s.recv_ready(),
            Port::Send => s.send_ready(),
        },
        board: b,
    }
}

/// Every step of a queue channel serves a call that waits on one of its sides, in all four
/// flavours.
///
/// `waiter` is that of a receive that blocks, on a fresh cell; `over` is the cell of one that no
/// longer does. Where the arm is a recv arm, its own handle keeps the last receiver from going.
pub proof fn law_queue_steps_serve_selects<T>(
    s: BufferView<T>,
    b: BoardView,
    port: Port,
    cell: u64,
    val: T,
    waiter: RecvWaiter,
    over: u64,
)
    ensures
        serves(queue_arm(s, b, port), queue_arm(s.sent(val), s.sent_wakes_one(b), port), cell),
        serves(queue_arm(s, b, port), queue_arm(s.sent(val), s.sent_wakes_every(b), port), cell),
        serves(queue_arm(s, b, port), queue_arm(s.received(), s.received_wakes(b), port), cell),
        !b.cells.contains_key(waiter.selected) ==> serves(
            queue_arm(s, b, port),
            queue_arm(s.waiting(waiter), b.opened(waiter.selected), port),
            cell,
        ),
        !unused(s.ports.recv_waiters, over) ==> serves(
            queue_arm(s, b, port),
            queue_arm(s.released(over), b.closed(over), port),
            cell,
        ) && serves(
            queue_arm(s, b, port),
            queue_arm(s.received().released(over), s.received_wakes(b).closed(over), port),
            cell,
        ),
        serves(queue_arm(s, b, port), queue_arm(s.sender_added(), b, port), cell),
        s.ports.senders > 0 ==> serves(
            queue_arm(s, b, port),
            queue_arm(s.sender_closed(), s.ports.sender_closed_wakes(b), port),
            cell,
        ),
        serves(queue_arm(s, b, port), queue_arm(s.receiver_added(), b, port), cell),
        s.ports.receivers > (if port == Port::Recv { 1int } else { 0 }) ==> serves(
            queue_arm(s, b, port),
            queue_arm(s.receiver_closed(), s.receiver_closed_wakes(b), port),
            cell,
        ),
{
    let recv = s.ports.recv_waiters;
    let arms = s.stack(Port::Recv);
    let sends = s.stack(Port::Send);
    if b.unselected(cell) && unused(recv, cell) {
        lemma_still_unused(recv, waiter, over, cell);
        lemma_receives_woken(recv, b, cell);
        lemma_arms_woken(arms, b, woken_one(recv, b), cell);
        lemma_arms_woken(arms, b, nudged(recv, b), cell);
        lemma_arms_woken(arms, b, woken_all(recv, b), cell);
        lemma_arms_woken(sends, b, b, cell);
        let after_receive = s.received_wakes(b);
        assert(!unused(recv, over) ==> over != cell);
        if !unused(recv, over) && !after_receive.unselected(cell) {
            lemma_claim_outlives_release(sends, b, after_receive, cell, over);
        }
        assert forall|after: BoardView|
            claimed_for(arms, b, after, cell) || claimed_for(
                sends,
                b,
                after,
                cell,
            ) implies #[trigger] claimed_for(arms + sends, b, after, cell) by {
            lemma_claimed_on_a_side(arms, sends, b, after, cell);
        }
    }
}

/// What can happen to a queue channel while a select call is parked on it.
pub enum QueueStep<T> {
    /// A send, in a channel with many consumers.
    SendToMany(T),
    /// A send, in a channel with a single consumer.
    SendToOne(T),
    /// A receive that does not wait.
    Receive,
    /// A receive that blocks, on this fresh cell.
    Block { fresh: u64, thread: u64 },
    /// The blocked receive of this cell gives its registration up.
    Release { over: u64 },
    /// The blocked receive of this cell takes what there is and gives its registration up.
    ReceiveAndRelease { over: u64 },
    SenderAdded,
    SenderClosed,
    ReceiverAdded,
    ReceiverClosed,
    /// Something happens in another channel, or the log of unparked threads is emptied.
    Elsewhere,
}

impl<T> QueueStep<T> {
    /// The step leads from one state of the channel and the board to another, while an arm waits on
    /// this side. A recv arm has a handle of its own, so that no other is the last.
    pub open spec fn leads(
        self,
        port: Port,
        s: BufferView<T>,
        b: BoardView,
        s2: BufferView<T>,
        b2: BoardView,
    ) -> bool {
        match self {
            QueueStep::SendToMany(val) => s2 == s.sent(val) && b2 == s.sent_wakes_one(b),
            QueueStep::SendToOne(val) => s2 == s.sent(val) && b2 == s.sent_wakes_every(b),
            QueueStep::Receive => s2 == s.received() && b2 == s.received_wakes(b),
            QueueStep::Block { fresh, thread } => {
                &&& !b.cells.contains_key(fresh)
                &&& s2 == s.waiting(RecvWaiter { case_id: UNSELECTED, selected: fresh, thread })
                &&& b2 == b.opened(fresh)
            },
            QueueStep::Release { over } => {
                &&& !unused(s.ports.recv_waiters, over)
                &&& s2 == s.released(over)
                &&& b2 == b.closed(over)
            },
            QueueStep::ReceiveAndRelease { over } => {
                &&& !unused(s.ports.recv_waiters, over)
                &&& s2 == s.received().released(over)
                &&& b2 == s.received_wakes(b).closed(over)
            },
            QueueStep::SenderAdded => s2 == s.sender_added() && b2 == b,
            QueueStep::SenderClosed => {
                &&& s.ports.senders > 0
                &&& s2 == s.sender_closed()
                &&& b2 == s.ports.sender_closed_wakes(b)
            },
            QueueStep::ReceiverAdded => s2 == s.receiver_added() && b2 == b,
            QueueStep::ReceiverClosed => {
                &&& s.ports.receivers > (if port == Port::Recv { 1int } else { 0 })
                &&& s2 == s.receiver_closed()
                &&& b2 == s.receiver_closed_wakes(b)
            },
            QueueStep::Elsewhere => s2 == s,
        }
    }
}

/// The arm in each state of the channel and the board.
pub open spec fn queue_trace<T>(
    states: Seq<(BufferView<T>, BoardView)>,
    port: Port,
) -> Seq<ArmSnapshot> {
    states.map_values(|state: (BufferView<T>, BoardView)| queue_arm(state.0, state.1, port))
}

/// A select call that is parked on a queue channel is woken: whatever steps are taken on the
/// channel and elsewhere, the call's waiters stay until its cell is claimed; and once its arm is
/// ready, the cell has been claimed, and unless that happened elsewhere, for an arm of the call on
/// this channel, with the thread unparked.
pub proof fn law_select_parked_on_a_queue_is_woken<T>(
    states: Seq<(BufferView<T>, BoardView)>,
    steps: Seq<QueueStep<T>>,
    port: Port,
    cell: u64,
)
    requires
        states.len() == steps.len() + 1,
        forall|k: int|
            0 <= k < steps.len() ==> (#[trigger] steps[k]).leads(
                port,
                states[k].0,
                states[k].1,
                states[k + 1].0,
                states[k + 1].1,
            ),
        waits_alone(queue_arm(states[0].0, states[0].1, port), cell),
        !queue_arm(states[0].0, states[0].1, port).ready,
    ensures
        ({
            let trace = queue_trace(states, port);
            &&& (exists|k: int| served_at(trace, k, cell)) || (forall|k: int|
                0 <= k < trace.len() ==> still_parked(#[trigger] trace[k], trace[0], cell))
            &&& trace.last().ready || !trace.last().board.unselected(cell) ==> exists|k: int|
                served_at(trace, k, cell)
        }),
{
    let trace = queue_trace(states, port);
    assert forall|k: int| 0 <= k < trace.len() - 1 implies serves(
        #[trigger] trace[k],
        trace[k + 1],
        cell,
    ) || elsewhere(trace[k], trace[k + 1]) by {
        lemma_step_serves(
            steps[k],
            port,
            states[k].0,
            states[k].1,
            states[k + 1].0,
            states[k + 1].1,
            cell,
        );
    }
    law_parked_select_is_woken(trace, cell);
}

proof fn lemma_step_serves<T>(
    step: QueueStep<T>,
    port: Port,
    s: BufferView<T>,
    b: BoardView,
    s2: BufferView<T>,
    b2: BoardView,
    cell: u64,
)
    requires
        step.leads(port, s, b, s2, b2),
    ensures
        serves(queue_arm(s, b, port), queue_arm(s2, b2, port), cell) || elsewhere(
            queue_arm(s, b, port),
            queue_arm(s2, b2, port),
        ),
{
    let val: T = match step {
        QueueStep::SendToMany(val) => val,
        QueueStep::SendToOne(val) => val,
        _ => arbitrary(),
    };
    let waiter = match step {
        QueueStep::Block { fresh, thread } => RecvWaiter {
            case_id: UNSELECTED,
            selected: fresh,
            thread,
        },
        _ => arbitrary(),
    };
    let over = match step {
        QueueStep::Release { over } => over,
        QueueStep::ReceiveAndRelease { over } => over,
        _ => 0,
    };
    law_queue_steps_serve_selects(s, b, port, cell, val, waiter, over);
}

/// A fresh wait and the end of a wait leave an unused cell unused.
proof fn lemma_still_unused(recv: Seq<RecvWaiter>, waiter: RecvWaiter, over: u64, cell: u64)
    requires
        unused(recv, cell),
    ensures
        waiter.selected != cell ==> unused(recv.push(waiter), cell),
        unused(without(recv, over), cell),
{
    lemma_without(recv, over);
    let more = recv.push(waiter);
    if waiter.selected != cell {
        assert forall|i: int| 0 <= i < more.len() implies (#[trigger] more[i]).selected != cell by {
            if i < recv.len() {
                assert(more[i] == recv[i]);
            }
        }
    }
}

/// A claim stands when another cell is closed.
proof fn lemma_claim_outlives_release(
    waiters: Seq<SelectWaiter>,
    b: BoardView,
    after: BoardView,
    cell: u64,
    over: u64,
)
    requires
        claimed_for(waiters, b, after, cell),
        over != cell,
    ensures
        claimed_for(waiters, b, after.closed(over), cell),
        !after.unselected(cell) ==> !after.closed(over).unselected(cell),
{
    let k = choose|k: int|
        {
            &&& 0 <= k < waiters.len()
            &&& (#[trigger] waiters[k]).selected == cell
            &&& !waiters[k].aborted
            &&& after.cells.contains_key(cell)
            &&& after.cells[cell] == waiters[k].case_id
            &&& unparked_since(b, after, waiters[k].thread)
        };
    let i = choose|i: int|
        b.unparked.len() <= i < after.unparked.len() && #[trigger] after.unparked[i]
            == waiters[k].thread;
    assert(after.closed(over).unparked[i] == waiters[k].thread);
    assert(unparked_since(b, after.closed(over), waiters[k].thread));
}

/// The firing of a timer serves a call that waits for it.
pub proof fn law_timers_serve_selects(
    s: BufferView<u64>,
    b: BoardView,
    cell: u64,
    timer: TimerView,
    now: u64,
)
    ensures
        serves(
            queue_arm(s, b, Port::Recv),
            queue_arm(timer.fired(s, now).1, timer.fired_wakes(s, now, b), Port::Recv),
            cell,
        ),
{
    let recv = s.ports.recv_waiters;
    let arms = s.stack(Port::Recv);
    let sends = s.stack(Port::Send);
    if b.unselected(cell) && unused(recv, cell) && now >= timer.due {
        lemma_receives_woken(recv, b, cell);
        lemma_arms_woken(arms, b, nudged(recv, b), cell);
        let after = timer.fired_wakes(s, now, b);
        if claimed_for(arms, b, after, cell) {
            lemma_claimed_on_a_side(arms, sends, b, after, cell);
        }
    }
}

// ── Rendezvous channel ───────────────────────────────────────────────────────
/// An arm on one side of a rendezvous channel.
pub open spec fn rendezvous_arm<T>(s: RendezvousView<T>, b: BoardView, port: Port) -> ArmSnapshot {
    ArmSnapshot {
        stack: s.stack(port),
        all: s.stack(Port::Recv) + s.stack(Port::Send),
        recv: s.ports.recv_waiters,
        ready: match port {
            Port::Recv => s.offer() is Some,
            Port::Send => s.ports.recv_waiters.len() > 0 || s.ports.receivers == 0,
        },
        board: b,
    }
}

/// Every step of a rendezvous channel serves a call that waits on one of its sides.
///
/// `parked` is a send that parks, and `ticket` one that is over; `waiter` is that of a receive
/// that blocks, on a fresh cell, and `over` is the cell of one that no longer does. Where the arm
/// is a recv arm, its own handle keeps the last receiver from going.
pub proof fn law_rendezvous_steps_serve_selects<T>(
    s: RendezvousView<T>,
    b: BoardView,
    port: Port,
    cell: u64,
    parked: Parked<T>,
    ticket: u64,
    waiter: RecvWaiter,
    over: u64,
)
    ensures
        serves(
            rendezvous_arm(s, b, port),
            rendezvous_arm(s.with_parked(parked), s.parked_wakes(b), port),
            cell,
        ),
        serves(rendezvous_arm(s, b, port), rendezvous_arm(s.noticed(ticket), b, port), cell),
        s.is_parked(ticket) ==> serves(
            rendezvous_arm(s, b, port),
            rendezvous_arm(s.withdrawn(ticket), b, port),
            cell,
        ),
        serves(
            rendezvous_arm(s, b, port),
            rendezvous_arm(s.received(), s.received_wakes(b), port),
            cell,
        ),
        !b.cells.contains_key(waiter.selected) ==> serves(
            rendezvous_arm(s, b, port),
            rendezvous_arm(
                s.waiting(waiter),
                woken_one(pending(s.send_select_waiters), b.opened(waiter.selected)),
                port,
            ),
            cell,
        ),
        !unused(s.ports.recv_waiters, over) ==> serves(
            rendezvous_arm(s, b, port),
            rendezvous_arm(s.released(over), b.closed(over), port),
            cell,
        ) && serves(
            rendezvous_arm(s, b, port),
            rendezvous_arm(
                s.received().released(over),
                s.received_wakes(b).closed(over),
                port,
            ),
            cell,
        ),
        serves(rendezvous_arm(s, b, port), rendezvous_arm(s.sender_added(), b, port), cell),
        s.ports.senders > 0 ==> serves(
            rendezvous_arm(s, b, port),
            rendezvous_arm(s.sender_closed(), s.ports.sender_closed_wakes(b), port),
            cell,
        ),
        serves(rendezvous_arm(s, b, port), rendezvous_arm(s.receiver_added(), b, port), cell),
        s.ports.receivers > (if port == Port::Recv { 1int } else { 0 }) ==> serves(
            rendezvous_arm(s, b, port),
            rendezvous_arm(s.receiver_closed(), s.receiver_closed_wakes(b), port),
            cell,
        ),
{
    let recv = s.ports.recv_waiters;
    let arms = s.stack(Port::Recv);
    let sends = s.stack(Port::Send);
    if b.unselected(cell) && unused(recv, cell) {
        lemma_still_unused(recv, waiter, over, cell);
        lemma_receives_woken(recv, b, cell);
        lemma_arms_woken(arms, b, woken_all(recv, b), cell);
        lemma_arms_woken(sends, b, b, cell);
        lemma_arms_woken(sends, b, b.opened(waiter.selected), cell);
        lemma_senders_unparked(s.parked, b);
        let alone = unparked_senders(s.parked, b);
        assert(alone.unselected(cell));
        lemma_arms_woken(sends, b, alone, cell);
        assert(!unused(recv, over) ==> over != cell);
        lemma_less_is_less(recv, over);
        if s.is_parked(ticket) {
            assert(s.parked_at(ticket, s.place(ticket)));
        }
        assert forall|after: BoardView|
            claimed_for(arms, b, after, cell) || claimed_for(
                sends,
                b,
                after,
                cell,
            ) implies #[trigger] claimed_for(arms + sends, b, after, cell) by {
            lemma_claimed_on_a_side(arms, sends, b, after, cell);
        }
    }
}

proof fn lemma_less_is_less(recv: Seq<RecvWaiter>, cell: u64)
    ensures
        without(recv, cell).len() <= recv.len(),
    decreases recv.len(),
{
    if recv.len() > 0 {
        lemma_less_is_less(recv.drop_last(), cell);
    }
}

proof fn lemma_senders_unparked<T>(parked: Seq<Parked<T>>, b: BoardView)
    ensures
        unparked_senders(parked, b).cells == b.cells,
        unparked_senders(parked, b).unparked.len() >= b.unparked.len(),
    decreases parked.len(),
{
    if parked.len() > 0 {
        lemma_senders_unparked(parked.drop_last(), b.unpark(parked.last().thread));
    }
}

// ── Oneshot channel ──────────────────────────────────────────────────────────
/// A recv arm on a oneshot channel.
pub open spec fn oneshot_arm<T>(s: OneshotView<T>, b: BoardView) -> ArmSnapshot {
    ArmSnapshot {
        stack: s.select_waiters,
        all: s.select_waiters,
        recv: s.recv_waiters,
        ready: s.state != SenderState::Open,
        board: b,
    }
}

/// Every step of a oneshot channel serves a call that waits on it.
///
/// `waiter` is that of a receive that blocks, on a fresh cell; `over` is the cell of one that no
/// longer does. The arm's own handle keeps the last receiver from going.
pub proof fn law_oneshot_steps_serve_selects<T>(
    s: OneshotView<T>,
    b: BoardView,
    cell: u64,
    val: T,
    waiter: RecvWaiter,
    over: u64,
)
    ensures
        serves(oneshot_arm(s, b), oneshot_arm(s.sent(val), s.sender_used_wakes(b)), cell),
        serves(oneshot_arm(s, b), oneshot_arm(s.sender_closed(), s.sender_used_wakes(b)), cell),
        serves(oneshot_arm(s, b), oneshot_arm(s.received(), b), cell),
        !b.cells.contains_key(waiter.selected) ==> serves(
            oneshot_arm(s, b),
            oneshot_arm(s.waiting(waiter), b.opened(waiter.selected)),
            cell,
        ),
        !unused(s.recv_waiters, over) ==> serves(
            oneshot_arm(s, b),
            oneshot_arm(s.released(over), b.closed(over)),
            cell,
        ) && serves(
            oneshot_arm(s, b),
            oneshot_arm(s.received().released(over), b.closed(over)),
            cell,
        ),
        serves(oneshot_arm(s, b), oneshot_arm(s.receiver_added(), b), cell),
        s.receivers > 1 ==> serves(oneshot_arm(s, b), oneshot_arm(s.receiver_closed(), b), cell),
{
    if b.unselected(cell) && unused(s.recv_waiters, cell) {
        lemma_still_unused(s.recv_waiters, waiter, over, cell);
        lemma_receives_woken(s.recv_waiters, b, cell);
        lemma_arms_woken(s.select_waiters, b, woken_all(s.recv_waiters, b), cell);
    }
}

// ── Watch channel ────────────────────────────────────────────────────────────
/// A recv arm on a watch channel.
pub open spec fn watch_arm<T>(rx: WatchReceiver<T>, s: WatchView<T>, b: BoardView) -> ArmSnapshot {
    ArmSnapshot {
        stack: s.ports.select_waiters,
        all: s.ports.select_waiters,
        recv: s.ports.recv_waiters,
        ready: rx.sees_news(s),
        board: b,
    }
}

/// Every step of a watch channel serves a call that waits on it.
///
/// The arm has looked at the channel, as it does before it registers, so that its cursor is fixed.
/// `waiter` is that of a thread that waits for a change, on a fresh cell; `over` is the cell of one
/// that no longer does. The arm's own handle keeps the last receiver from going.
pub proof fn law_watch_steps_serve_selects<T>(
    rx: WatchReceiver<T>,
    s: WatchView<T>,
    b: BoardView,
    cell: u64,
    value: T,
    waiter: RecvWaiter,
    over: u64,
)
    requires
        rx.cursor.armed,
        s.ports.receivers > 0,
    ensures
        serves(watch_arm(rx, s, b), watch_arm(rx, s.sent(value), s.sent_wakes(b)), cell),
        serves(watch_arm(rx, s, b), watch_arm(rx, s.marked(), s.sent_wakes(b)), cell),
        !b.cells.contains_key(waiter.selected) ==> serves(
            watch_arm(rx, s, b),
            watch_arm(rx, s.waiting(waiter), b.opened(waiter.selected)),
            cell,
        ),
        !unused(s.ports.recv_waiters, over) ==> serves(
            watch_arm(rx, s, b),
            watch_arm(rx, s.released(over), b.closed(over)),
            cell,
        ),
        serves(watch_arm(rx, s, b), watch_arm(rx, s.sender_added(), b), cell),
        s.ports.senders > 0 ==> serves(
            watch_arm(rx, s, b),
            watch_arm(rx, s.sender_closed(), s.ports.sender_closed_wakes(b)),
            cell,
        ),
        serves(watch_arm(rx, s, b), watch_arm(rx, s.receiver_added(), b), cell),
        s.ports.receivers > 1 ==> serves(
            watch_arm(rx, s, b),
            watch_arm(rx, s.receiver_closed(), b),
            cell,
        ),
{
    if b.unselected(cell) && unused(s.ports.recv_waiters, cell) {
        lemma_still_unused(s.ports.recv_waiters, waiter, over, cell);
        let recv = s.ports.recv_waiters;
        lemma_receives_woken(recv, b, cell);
        lemma_arms_woken(s.ports.select_waiters, b, woken_all(recv, b), cell);
    }
}

// ── Broadcast channel ────────────────────────────────────────────────────────
/// A recv arm on a broadcast channel.
pub open spec fn broadcast_arm<T>(
    rx: BroadcastReceiver<T>,
    s: BroadcastView<T>,
    b: BoardView,
) -> ArmSnapshot {
    ArmSnapshot {
        stack: s.ports.select_waiters,
        all: s.ports.select_waiters,
        recv: s.ports.recv_waiters,
        ready: rx.ready(s),
        board: b,
    }
}

/// Every step of a broadcast channel serves a call that waits on it.
///
/// `waiter` is that of a receive that blocks, on a fresh cell; `over` is the cell of one that no
/// longer does. The arm's own handle keeps the last receiver from going.
pub proof fn law_broadcast_steps_serve_selects<T>(
    rx: BroadcastReceiver<T>,
    s: BroadcastView<T>,
    b: BoardView,
    cell: u64,
    value: T,
    waiter: RecvWaiter,
    over: u64,
)
    ensures
        serves(broadcast_arm(rx, s, b), broadcast_arm(rx, s.sent(value), s.sent_wakes(b)), cell),
        !b.cells.contains_key(waiter.selected) ==> serves(
            broadcast_arm(rx, s, b),
            broadcast_arm(rx, s.waiting(waiter), b.opened(waiter.selected)),
            cell,
        ),
        !unused(s.ports.recv_waiters, over) ==> serves(
            broadcast_arm(rx, s, b),
            broadcast_arm(rx, s.released(over), b.closed(over)),
            cell,
        ),
        serves(broadcast_arm(rx, s, b), broadcast_arm(rx, s.sender_added(), b), cell),
        s.ports.senders > 0 ==> serves(
            broadcast_arm(rx, s, b),
            broadcast_arm(rx, s.sender_closed(), s.ports.sender_closed_wakes(b)),
            cell,
        ),
        serves(broadcast_arm(rx, s, b), broadcast_arm(rx, s.receiver_added(), b), cell),
        s.ports.receivers > 1 ==> serves(
            broadcast_arm(rx, s, b),
            broadcast_arm(rx, s.receiver_closed(), b),
            cell,
        ),
{
    if b.unselected(cell) && unused(s.ports.recv_waiters, cell) {
        lemma_still_unused(s.ports.recv_waiters, waiter, over, cell);
        let recv = s.ports.recv_waiters;
        lemma_receives_woken(recv, b, cell);
        lemma_arms_woken(s.ports.select_waiters, b, nudged(recv, b), cell);
        lemma_arms_woken(s.ports.select_waiters, b, woken_all(recv, b), cell);
    }
}

} // verus!
