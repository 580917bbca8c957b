//! Nobody sleeps through a wake-up.
//!
//! A thread blocked in a receive can be woken as long as its selection cell is open and unclaimed.
//! The laws here say that the steps of the queue channels and of the broadcast channel keep it so,
//! for every blocked receive and from the first step on; and that a send therefore always finds
//! somebody to wake if anybody is blocked. (The other channels wake regardless of the cell.)
use vstd::prelude::*;

use crate::bounded_broadcast::{law_send_wakes_everybody, BroadcastView};
use crate::buffer::{
    law_arrival_wakes_every_receiver, law_arrival_wakes_one_receiver, BufferView,
};
use crate::error::RecvError;
use crate::ports::{Port, Step};
use crate::waiter::{
    aborted, law_aborted_waiters_are_never_pending, law_plain_waiter_stays_wakeable,
    law_wakeups_touch_only_waited_cells, nudged, pending, unselected_threads, without, woken_all,
    woken_one, BoardView, RecvWaiter, RecvWaiterGuard, SelectWaiter, UNSELECTED,
};

verus! {

/// Every blocked receive has a cell of its own that is open and unclaimed, and that waking it does
/// not claim.
pub open spec fn wakeable(recv: Seq<RecvWaiter>, b: BoardView) -> bool {
    &&& forall|i: int|
        0 <= i < recv.len() ==> b.unselected((#[trigger] recv[i]).selected) && recv[i].case_id
            == UNSELECTED
    &&& forall|i: int, j: int|
        0 <= i < j < recv.len() ==> (#[trigger] recv[i]).selected != (#[trigger] recv[j]).selected
}

/// No blocked receive waits on this cell.
pub open spec fn unused(recv: Seq<RecvWaiter>, cell: u64) -> bool {
    forall|i: int| 0 <= i < recv.len() ==> (#[trigger] recv[i]).selected != cell
}

/// The arms that can be woken wait on open cells, and on none of a blocked receive.
pub open spec fn apart(recv: Seq<RecvWaiter>, stack: Seq<SelectWaiter>, b: BoardView) -> bool {
    forall|k: int|
        0 <= k < pending(stack).len() ==> b.cells.contains_key(
            (#[trigger] pending(stack)[k]).selected,
        ) && unused(recv, pending(stack)[k].selected)
}

/// The waiters of a queue channel are in order.
pub open spec fn in_order<T>(s: BufferView<T>, b: BoardView) -> bool {
    &&& wakeable(s.ports.recv_waiters, b)
    &&& apart(s.ports.recv_waiters, s.ports.select_waiters, b)
    &&& apart(s.ports.recv_waiters, s.send_select_waiters, b)
}

// ── Waiters ──────────────────────────────────────────────────────────────────
proof fn lemma_new_wait(recv: Seq<RecvWaiter>, b: BoardView, cell: u64, thread: u64)
    requires
        wakeable(recv, b),
        !b.cells.contains_key(cell),
    ensures
        wakeable(
            recv.push(RecvWaiter { case_id: UNSELECTED, selected: cell, thread }),
            b.opened(cell),
        ),
        forall|stack: Seq<SelectWaiter>|
            apart(recv, stack, b) ==> #[trigger] apart(
                recv.push(RecvWaiter { case_id: UNSELECTED, selected: cell, thread }),
                stack,
                b.opened(cell),
            ),
{
    let waiter = RecvWaiter { case_id: UNSELECTED, selected: cell, thread };
    let more = recv.push(waiter);
    assert forall|i: int| 0 <= i < more.len() implies b.opened(cell).unselected(
        (#[trigger] more[i]).selected,
    ) && more[i].case_id == UNSELECTED by {
        if i < recv.len() {
            assert(more[i] == recv[i]);
        }
    }
    assert forall|i: int, j: int| 0 <= i < j < more.len() implies (#[trigger] more[i]).selected != (
    #[trigger] more[j]).selected by {
        assert(more[i] == recv[i]);
        if j < recv.len() {
            assert(more[j] == recv[j]);
        } else {
            assert(b.unselected(recv[i].selected));
        }
    }
    assert forall|stack: Seq<SelectWaiter>| apart(recv, stack, b) implies #[trigger] apart(
        more,
        stack,
        b.opened(cell),
    ) by {
        assert forall|k: int| 0 <= k < pending(stack).len() implies b.opened(
            cell,
        ).cells.contains_key((#[trigger] pending(stack)[k]).selected) && unused(
            more,
            pending(stack)[k].selected,
        ) by {
            let c = pending(stack)[k].selected;
            assert(unused(recv, c));
            assert forall|i: int| 0 <= i < more.len() implies (#[trigger] more[i]).selected
                != c by {
                if i < recv.len() {
                    assert(more[i] == recv[i]);
                }
            }
        }
    }
}

pub(crate) proof fn lemma_without(recv: Seq<RecvWaiter>, cell: u64)
    ensures
        unused(without(recv, cell), cell),
        forall|c: u64| unused(recv, c) ==> #[trigger] unused(without(recv, cell), c),
        forall|i: int|
            0 <= i < without(recv, cell).len() ==> recv.contains(
                #[trigger] without(recv, cell)[i],
            ),
    decreases recv.len(),
{
    if recv.len() > 0 {
        let init = recv.drop_last();
        lemma_without(init, cell);
        assert forall|c: u64| unused(recv, c) implies unused(init, c) by {
            assert forall|i: int| 0 <= i < init.len() implies (#[trigger] init[i]).selected
                != c by {
                assert(init[i] == recv[i]);
            }
        }
        assert forall|c: u64| unused(recv, c) implies #[trigger] unused(without(recv, cell), c) by {
            assert(unused(init, c));
            assert(unused(without(init, cell), c));
            assert(recv[recv.len() - 1].selected != c);
        }
        assert forall|i: int| 0 <= i < without(recv, cell).len() implies recv.contains(
            #[trigger] without(recv, cell)[i],
        ) by {
            if i < without(init, cell).len() {
                assert(init.contains(without(init, cell)[i]));
                let j = choose|j: int| 0 <= j < init.len() && init[j] == without(init, cell)[i];
                assert(recv[j] == without(recv, cell)[i]);
            } else {
                assert(recv[recv.len() - 1] == without(recv, cell)[i]);
            }
        }
    }
}

proof fn lemma_without_distinct(recv: Seq<RecvWaiter>, cell: u64)
    requires
        forall|i: int, j: int|
            0 <= i < j < recv.len() ==> (#[trigger] recv[i]).selected != (
            #[trigger] recv[j]).selected,
    ensures
        ({
            let less = without(recv, cell);
            forall|i: int, j: int|
                0 <= i < j < less.len() ==> (#[trigger] less[i]).selected != (
                #[trigger] less[j]).selected
        }),
    decreases recv.len(),
{
    if recv.len() > 0 {
        let init = recv.drop_last();
        let less = without(recv, cell);
        assert forall|i: int, j: int| 0 <= i < j < init.len() implies (#[trigger] init[i]).selected
            != (#[trigger] init[j]).selected by {
            assert(init[i] == recv[i] && init[j] == recv[j]);
        }
        lemma_without_distinct(init, cell);
        lemma_without(init, cell);
        assert forall|i: int, j: int| 0 <= i < j < less.len() implies (#[trigger] less[i]).selected
            != (#[trigger] less[j]).selected by {
            assert(less[i] == without(init, cell)[i]);
            if j < without(init, cell).len() {
                assert(less[j] == without(init, cell)[j]);
            } else {
                let k = choose|k: int| 0 <= k < init.len() && init[k] == without(init, cell)[i];
                assert(recv[k] == init[k]);
                assert(recv[recv.len() - 1] == less[j]);
            }
        }
    }
}

proof fn lemma_wait_over(recv: Seq<RecvWaiter>, b: BoardView, cell: u64)
    requires
        wakeable(recv, b),
    ensures
        wakeable(without(recv, cell), b.closed(cell)),
        forall|stack: Seq<SelectWaiter>|
            apart(recv, stack, b) && !unused(recv, cell) ==> #[trigger] apart(
                without(recv, cell),
                stack,
                b.closed(cell),
            ),
{
    let less = without(recv, cell);
    lemma_without(recv, cell);
    lemma_without_distinct(recv, cell);
    assert forall|i: int| 0 <= i < less.len() implies b.closed(cell).unselected(
        (#[trigger] less[i]).selected,
    ) && less[i].case_id == UNSELECTED by {
        assert(recv.contains(less[i]));
        let j = choose|j: int| 0 <= j < recv.len() && recv[j] == less[i];
        assert(b.unselected(recv[j].selected));
    }
    assert forall|stack: Seq<SelectWaiter>|
        apart(recv, stack, b) && !unused(recv, cell) implies #[trigger] apart(
        less,
        stack,
        b.closed(cell),
    ) by {
        assert forall|k: int| 0 <= k < pending(stack).len() implies b.closed(
            cell,
        ).cells.contains_key((#[trigger] pending(stack)[k]).selected) && unused(
            less,
            pending(stack)[k].selected,
        ) by {
            assert(unused(recv, pending(stack)[k].selected));
        }
    }
}

/// Any of the wake-ups that a channel performs on its blocked receives leaves everything in order.
proof fn lemma_recv_wakeups(recv: Seq<RecvWaiter>, b: BoardView)
    requires
        wakeable(recv, b),
    ensures
        wakeable(recv, woken_one(recv, b)),
        wakeable(recv, woken_all(recv, b)),
        wakeable(recv, nudged(recv, b)),
        woken_one(recv, b).cells.dom() == b.cells.dom(),
        woken_all(recv, b).cells.dom() == b.cells.dom(),
{
    law_wakeups_touch_only_waited_cells(recv, b);
    assert forall|i: int| 0 <= i < recv.len() implies woken_one(recv, b).unselected(
        (#[trigger] recv[i]).selected,
    ) && woken_all(recv, b).unselected(recv[i].selected) by {
        law_plain_waiter_stays_wakeable(recv, b, recv[i].selected);
    }
}

/// Waking waiters on other cells than those of the blocked receives leaves everything in order.
proof fn lemma_other_wakeups(recv: Seq<RecvWaiter>, others: Seq<RecvWaiter>, b: BoardView)
    requires
        wakeable(recv, b),
        forall|k: int| 0 <= k < others.len() ==> unused(recv, (#[trigger] others[k]).selected),
    ensures
        wakeable(recv, woken_one(others, b)),
        wakeable(recv, woken_all(others, b)),
        woken_one(others, b).cells.dom() == b.cells.dom(),
        woken_all(others, b).cells.dom() == b.cells.dom(),
{
    law_wakeups_touch_only_waited_cells(others, b);
    assert forall|i: int| 0 <= i < recv.len() implies woken_one(others, b).unselected(
        (#[trigger] recv[i]).selected,
    ) && woken_all(others, b).unselected(recv[i].selected) by {
        let cell = recv[i].selected;
        assert(b.unselected(cell));
        assert forall|k: int| 0 <= k < others.len() implies (#[trigger] others[k]).selected
            != cell by {
            assert(unused(recv, others[k].selected));
        }
        assert(woken_all(others, b).cells[cell] == b.cells[cell]);
    }
}

/// What `apart` depends on of the board is only which cells are open.
proof fn lemma_same_open_cells(
    recv: Seq<RecvWaiter>,
    stack: Seq<SelectWaiter>,
    a: BoardView,
    b: BoardView,
)
    requires
        a.cells.dom() == b.cells.dom(),
        apart(recv, stack, a),
    ensures
        apart(recv, stack, b),
{
    assert forall|k: int| 0 <= k < pending(stack).len() implies b.cells.contains_key(
        (#[trigger] pending(stack)[k]).selected,
    ) && unused(recv, pending(stack)[k].selected) by {
        assert(a.cells.dom().contains(pending(stack)[k].selected));
    }
}

// ── Laws of the queue channels ───────────────────────────────────────────────
/// A new channel is in order.
pub proof fn law_fresh_is_in_order<T>(capacity: Option<nat>, b: BoardView)
    ensures
        in_order(BufferView::<T>::fresh(capacity), b),
{
}

/// Sending keeps the waiters in order, in every flavour.
pub proof fn law_sending_keeps_order<T>(s: BufferView<T>, b: BoardView, val: T)
    requires
        in_order(s, b),
        s.accepts(),
    ensures
        in_order(s.sent(val), s.arrival_wakes_one(b)),
        in_order(s.sent(val), s.arrival_wakes_every(b)),
{
    let recv = s.ports.recv_waiters;
    let arms = s.ports.select_waiters;
    lemma_recv_wakeups(recv, b);
    let b1 = woken_one(recv, b);
    lemma_same_open_cells(recv, arms, b, b1);
    lemma_other_wakeups(recv, pending(arms), b1);
    lemma_same_open_cells(recv, s.send_select_waiters, b, s.arrival_wakes_one(b));
    let b2 = nudged(recv, b);
    lemma_same_open_cells(recv, arms, b, b2);
    lemma_other_wakeups(recv, pending(arms), b2);
    lemma_same_open_cells(recv, s.send_select_waiters, b, s.arrival_wakes_every(b));
}

/// Receiving without waiting keeps the waiters in order.
pub proof fn law_receiving_keeps_order<T>(s: BufferView<T>, b: BoardView)
    requires
        in_order(s, b),
    ensures
        in_order(s.received(), s.received_wakes(b)),
{
    let recv = s.ports.recv_waiters;
    if s.queue.len() > 0 {
        lemma_other_wakeups(recv, pending(s.send_select_waiters), b);
        lemma_same_open_cells(recv, s.ports.select_waiters, b, s.received_wakes(b));
    }
}

/// A blocking receive keeps the waiters in order, whether it completes or waits.
pub proof fn law_blocking_keeps_order<T>(
    s: BufferView<T>,
    b: BoardView,
    thread: u64,
    r: Step<Result<T, RecvError>, RecvWaiterGuard>,
    after: BufferView<T>,
    b_after: BoardView,
)
    requires
        in_order(s, b),
        s.recv_step(b, thread, r, after, b_after),
    ensures
        in_order(after, b_after),
        r matches Step::Wait(guard) ==> !unused(after.ports.recv_waiters, guard.cell()),
{
    if s.offer() is Some {
        law_receiving_keeps_order(s, b);
    } else if let Step::Wait(guard) = r {
        lemma_new_wait(s.ports.recv_waiters, b, guard.cell(), thread);
        let more = after.ports.recv_waiters;
        assert(more[more.len() - 1].selected == guard.cell());
        assert(apart(more, s.ports.select_waiters, b_after));
        assert(apart(more, s.send_select_waiters, b_after));
    }
}

/// Undoing the registration of a blocked receive keeps the waiters in order.
pub proof fn law_releasing_keeps_order<T>(s: BufferView<T>, b: BoardView, cell: u64)
    requires
        in_order(s, b),
        !unused(s.ports.recv_waiters, cell),
    ensures
        in_order(s.released(cell), b.closed(cell)),
{
    lemma_wait_over(s.ports.recv_waiters, b, cell);
    let less = without(s.ports.recv_waiters, cell);
    assert(apart(less, s.ports.select_waiters, b.closed(cell)));
    assert(apart(less, s.send_select_waiters, b.closed(cell)));
}

/// The second look of a registered receive keeps the waiters in order, in every flavour.
pub proof fn law_rechecking_keeps_order<T>(
    s: BufferView<T>,
    b: BoardView,
    thread: u64,
    guard: RecvWaiterGuard,
    r: Step<Result<T, RecvError>, RecvWaiterGuard>,
    after: BufferView<T>,
    b_after: BoardView,
)
    requires
        in_order(s, b),
        !unused(s.ports.recv_waiters, guard.cell()),
        s.recheck_step(b, guard, r, after, b_after) || s.renewing_recheck_step(
            b,
            thread,
            guard,
            r,
            after,
            b_after,
        ),
    ensures
        in_order(after, b_after),
        r is Wait <==> s.queue.len() == 0 && s.ports.senders > 0,
{
    let recv = s.ports.recv_waiters;
    let i = choose|i: int| 0 <= i < recv.len() && (#[trigger] recv[i]).selected == guard.cell();
    assert(b.unselected(recv[i].selected));
    if s.offer() is Some {
        law_receiving_keeps_order(s, b);
        law_releasing_keeps_order(s.received(), s.received_wakes(b), guard.cell());
    }
}

/// Handles coming and going keeps the waiters in order.
pub proof fn law_handles_keep_order<T>(s: BufferView<T>, b: BoardView)
    requires
        in_order(s, b),
    ensures
        in_order(s.sender_added(), b),
        in_order(s.sender_closed(), s.ports.sender_closed_wakes(b)),
        in_order(s.receiver_added(), b),
        in_order(s.receiver_closed(), s.receiver_closed_wakes(b)),
{
    let recv = s.ports.recv_waiters;
    let arms = s.ports.select_waiters;
    let sends = s.send_select_waiters;
    if s.ports.senders == 1 {
        lemma_recv_wakeups(recv, b);
        let b1 = woken_all(recv, b);
        lemma_same_open_cells(recv, arms, b, b1);
        lemma_other_wakeups(recv, pending(arms), b1);
        lemma_same_open_cells(recv, sends, b, s.ports.sender_closed_wakes(b));
    }
    if s.ports.receivers == 1 {
        lemma_other_wakeups(recv, pending(sends), b);
    }
}

/// A select call that registers on an open cell keeps the waiters in order.
pub proof fn law_registering_keeps_order<T>(
    s: BufferView<T>,
    b: BoardView,
    port: Port,
    waiter: SelectWaiter,
)
    requires
        in_order(s, b),
        b.cells.contains_key(waiter.selected),
        unused(s.ports.recv_waiters, waiter.selected),
    ensures
        in_order(s.with_stack(port, s.stack(port).push(waiter)), b),
{
    let stack = s.stack(port);
    let more = stack.push(waiter);
    assert(more.drop_last() =~= stack);
    assert forall|k: int| 0 <= k < pending(more).len() implies b.cells.contains_key(
        (#[trigger] pending(more)[k]).selected,
    ) && unused(s.ports.recv_waiters, pending(more)[k].selected) by {
        if waiter.aborted {
            assert(pending(more)[k] == pending(stack)[k]);
        } else if k > 0 {
            assert(pending(more)[k] == pending(stack)[k - 1]);
        }
    }
}

/// A select call that aborts its waiters on both sides and closes its cell keeps the waiters in
/// order.
pub proof fn law_aborting_keeps_order<T>(s: BufferView<T>, b: BoardView, cell: u64)
    requires
        in_order(s, b),
        unused(s.ports.recv_waiters, cell),
    ensures
        in_order(
            s.with_stack(Port::Recv, aborted(s.stack(Port::Recv), cell)).with_stack(
                Port::Send,
                aborted(s.stack(Port::Send), cell),
            ),
            b.closed(cell),
        ),
{
    lemma_aborted_apart(s.ports.recv_waiters, s.stack(Port::Recv), b, cell);
    lemma_aborted_apart(s.ports.recv_waiters, s.stack(Port::Send), b, cell);
}

proof fn lemma_aborted_apart(
    recv: Seq<RecvWaiter>,
    stack: Seq<SelectWaiter>,
    b: BoardView,
    cell: u64,
)
    requires
        apart(recv, stack, b),
    ensures
        apart(recv, aborted(stack, cell), b.closed(cell)),
{
    let other = |w: RecvWaiter| w.selected != cell;
    let less = pending(aborted(stack, cell));
    law_aborted_waiters_are_never_pending(stack, cell);
    assert forall|k: int| 0 <= k < less.len() implies b.closed(cell).cells.contains_key(
        (#[trigger] less[k]).selected,
    ) && unused(recv, less[k].selected) by {
        assert(less[k].selected != cell);
        assert(less == pending(stack).filter(other));
        pending(stack).lemma_filter_contains_rev(other, less[k]);
        let j = choose|j: int| 0 <= j < pending(stack).len() && pending(stack)[j] == less[k];
        assert(unused(recv, pending(stack)[j].selected));
    }
}

/// What happens in other channels keeps the waiters in order: wake-ups of waiters on other cells,
/// cells being opened, and cells being closed that nobody here waits on.
pub proof fn law_other_channels_keep_order<T>(
    s: BufferView<T>,
    b: BoardView,
    others: Seq<RecvWaiter>,
    cell: u64,
)
    requires
        in_order(s, b),
        forall|k: int|
            0 <= k < others.len() ==> unused(
                s.ports.recv_waiters,
                (#[trigger] others[k]).selected,
            ),
    ensures
        in_order(s, woken_one(others, b)),
        in_order(s, woken_all(others, b)),
        in_order(s, nudged(others, b)),
        !b.cells.contains_key(cell) ==> in_order(s, b.opened(cell)),
        unused(s.ports.recv_waiters, cell) && unused(pending(s.ports.select_waiters), cell)
            && unused(pending(s.send_select_waiters), cell) ==> in_order(s, b.closed(cell)),
{
    let recv = s.ports.recv_waiters;
    let arms = s.ports.select_waiters;
    let sends = s.send_select_waiters;
    lemma_other_wakeups(recv, others, b);
    lemma_same_open_cells(recv, arms, b, woken_one(others, b));
    lemma_same_open_cells(recv, sends, b, woken_one(others, b));
    lemma_same_open_cells(recv, arms, b, woken_all(others, b));
    lemma_same_open_cells(recv, sends, b, woken_all(others, b));
    lemma_same_open_cells(recv, arms, b, nudged(others, b));
    lemma_same_open_cells(recv, sends, b, nudged(others, b));
}

/// No wake-up is lost: as long as the waiters are in order, a successful send unparks a blocked
/// receive whenever there is one. With many consumers it is the one that has waited longest, with a
/// single consumer it is every one.
pub proof fn law_no_lost_wakeup<T>(s: BufferView<T>, b: BoardView, i: int)
    requires
        in_order(s, b),
        0 <= i < s.ports.recv_waiters.len(),
    ensures
        b.unparked.push(s.ports.recv_waiters[0].thread).is_prefix_of(
            s.arrival_wakes_one(b).unparked,
        ),
        s.arrival_wakes_every(b).unparked.contains(s.ports.recv_waiters[i].thread),
{
    let recv = s.ports.recv_waiters;
    assert(b.unselected(recv[0].selected));
    law_arrival_wakes_one_receiver(s, b, 0);
    assert(b.unselected(recv[i].selected));
    law_arrival_wakes_every_receiver(s, b, i);
}

// ── Laws of the broadcast channel ────────────────────────────────────────────
/// The waiters of a broadcast channel are in order.
pub open spec fn broadcast_in_order<T>(s: BroadcastView<T>, b: BoardView) -> bool {
    &&& wakeable(s.ports.recv_waiters, b)
    &&& apart(s.ports.recv_waiters, s.ports.select_waiters, b)
}

/// A new broadcast channel is in order.
pub proof fn law_fresh_broadcast_is_in_order<T>(capacity: nat, b: BoardView)
    ensures
        broadcast_in_order(BroadcastView::<T>::fresh(capacity), b),
{
}

/// Sending keeps the waiters of a broadcast channel in order.
pub proof fn law_broadcasting_keeps_order<T>(s: BroadcastView<T>, b: BoardView, value: T)
    requires
        broadcast_in_order(s, b),
    ensures
        broadcast_in_order(s.sent(value), s.sent_wakes(b)),
{
    let recv = s.ports.recv_waiters;
    let arms = s.ports.select_waiters;
    if s.ports.receivers > 0 {
        lemma_recv_wakeups(recv, b);
        let b1 = nudged(recv, b);
        lemma_same_open_cells(recv, arms, b, b1);
        lemma_other_wakeups(recv, pending(arms), b1);
    }
}

/// A blocking receive keeps the waiters of a broadcast channel in order, whether it completes or
/// waits.
pub proof fn law_broadcast_blocking_keeps_order<T: Clone>(
    s: BroadcastView<T>,
    next: nat,
    b: BoardView,
    thread: u64,
    r: Step<Result<T, RecvError>, RecvWaiterGuard>,
    next_after: nat,
    after: BroadcastView<T>,
    b_after: BoardView,
)
    requires
        broadcast_in_order(s, b),
        s.recv_step(next, b, thread, r, next_after, after, b_after),
    ensures
        broadcast_in_order(after, b_after),
        r matches Step::Wait(guard) ==> !unused(after.ports.recv_waiters, guard.cell()),
{
    if let Step::Wait(guard) = r {
        lemma_new_wait(s.ports.recv_waiters, b, guard.cell(), thread);
        let more = after.ports.recv_waiters;
        assert(more[more.len() - 1].selected == guard.cell());
        assert(apart(more, s.ports.select_waiters, b_after));
    }
}

/// Undoing the registration of a blocked receive keeps the waiters of a broadcast channel in order.
pub proof fn law_broadcast_releasing_keeps_order<T>(s: BroadcastView<T>, b: BoardView, cell: u64)
    requires
        broadcast_in_order(s, b),
        !unused(s.ports.recv_waiters, cell),
    ensures
        broadcast_in_order(s.released(cell), b.closed(cell)),
{
    lemma_wait_over(s.ports.recv_waiters, b, cell);
    assert(apart(without(s.ports.recv_waiters, cell), s.ports.select_waiters, b.closed(cell)));
}

/// The second look of a registered receive keeps the waiters of a broadcast channel in order.
pub proof fn law_broadcast_rechecking_keeps_order<T: Clone>(
    s: BroadcastView<T>,
    next: nat,
    b: BoardView,
    thread: u64,
    guard: RecvWaiterGuard,
    r: Step<Result<T, RecvError>, RecvWaiterGuard>,
    next_after: nat,
    after: BroadcastView<T>,
    b_after: BoardView,
)
    requires
        broadcast_in_order(s, b),
        !unused(s.ports.recv_waiters, guard.cell()),
        s.recheck_step(next, b, thread, guard, r, next_after, after, b_after),
    ensures
        broadcast_in_order(after, b_after),
        r is Wait <==> s.is_idle(next),
{
    let recv = s.ports.recv_waiters;
    let i = choose|i: int| 0 <= i < recv.len() && (#[trigger] recv[i]).selected == guard.cell();
    assert(b.unselected(recv[i].selected));
    if !s.is_idle(next) {
        law_broadcast_releasing_keeps_order(s, b, guard.cell());
    }
}

/// No wake-up is lost: as long as the waiters are in order, a successful send unparks every blocked
/// receive.
pub proof fn law_broadcast_no_lost_wakeup<T>(s: BroadcastView<T>, b: BoardView, i: int)
    requires
        broadcast_in_order(s, b),
        s.ports.receivers > 0,
        0 <= i < s.ports.recv_waiters.len(),
    ensures
        s.sent_wakes(b).unparked.contains(s.ports.recv_waiters[i].thread),
{
    let recv = s.ports.recv_waiters;
    let woken = unselected_threads(recv, b);
    assert(b.unselected(recv[i].selected));
    law_send_wakes_everybody(s, b);
    assert(woken.contains(recv[i].thread));
    let k = choose|k: int| 0 <= k < woken.len() && woken[k] == recv[i].thread;
    assert(s.sent_wakes(b).unparked[b.unparked.len() + k] == recv[i].thread);
}

} // verus!
