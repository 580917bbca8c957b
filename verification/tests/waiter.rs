use selectables::waiter::{
    abort_select_waiters, drain_select_waiters, new_recv_waiter_list, push_select_waiter,
    register_plain_recv_waiter, wake_all_recv_waiters, wake_all_unselected_recv_waiters,
    wake_one_recv_waiter, wake_select_all, wake_select_one, Board, RecvWaiter, RecvWaiterGuard,
    SelectStack, SelectWaiter, UNSELECTED,
};

const T: u64 = 9;

// ── SelectWaiter tests ───────────────────────────────────────────────

#[test]
fn select_waiter_push_and_wake_one() {
    let mut board = Board::new();
    let mut stack = SelectStack::new();
    let selected = board.open_cell();

    push_select_waiter(SelectWaiter::new(3, selected, T), &mut stack);

    assert!(wake_select_one(&mut stack, &mut board));
    // Stack should now be empty (drained by wake_select_one)
    assert!(stack.is_empty());
    // The claim should have set the cell to case_id=3
    assert_eq!(board.load(selected), Some(3));
    assert_eq!(board.take_unparked(), vec![T]);
}

#[test]
fn select_waiter_abort_skips() {
    let mut board = Board::new();
    let mut stack = SelectStack::new();
    let selected = board.open_cell();

    push_select_waiter(SelectWaiter::new(7, selected, T), &mut stack);

    // Abort before wake
    abort_select_waiters(&mut stack, selected);

    // wake_select_one should skip the aborted node and return false
    assert!(!wake_select_one(&mut stack, &mut board));
    assert_eq!(board.load(selected), Some(UNSELECTED));
}

#[test]
fn select_wake_all_frees_nodes() {
    let mut board = Board::new();
    let mut stack = SelectStack::new();
    let sel1 = board.open_cell();
    let sel2 = board.open_cell();

    push_select_waiter(SelectWaiter::new(1, sel1, T), &mut stack);
    push_select_waiter(SelectWaiter::new(2, sel2, T), &mut stack);

    wake_select_all(&mut stack, &mut board);

    // Stack drained
    assert!(stack.is_empty());
    // Each waiter has its own cell, so both claims succeed independently.
    assert_eq!(board.load(sel1), Some(1));
    assert_eq!(board.load(sel2), Some(2));
}

#[test]
fn drain_select_waiters_no_leak() {
    let mut board = Board::new();
    let mut stack = SelectStack::new();
    let selected = board.open_cell();

    push_select_waiter(SelectWaiter::new(0, selected, T), &mut stack);
    push_select_waiter(SelectWaiter::new(1, selected, T), &mut stack);

    drain_select_waiters(&mut stack);
    assert!(stack.is_empty());
    assert_eq!(board.load(selected), Some(UNSELECTED));
    assert_eq!(board.take_unparked(), vec![]);
}

#[test]
fn abort_only_matching_selected() {
    let mut board = Board::new();
    let mut stack = SelectStack::new();
    let sel_a = board.open_cell();
    let sel_b = board.open_cell();

    push_select_waiter(SelectWaiter::new(0, sel_a, T), &mut stack);
    push_select_waiter(SelectWaiter::new(1, sel_b, T), &mut stack);

    // Only abort sel_a's waiters
    abort_select_waiters(&mut stack, sel_a);

    // Wake one: should wake the sel_b waiter (sel_a's is aborted)
    assert!(wake_select_one(&mut stack, &mut board));
    assert_eq!(board.load(sel_b), Some(1));
    assert_eq!(board.load(sel_a), Some(UNSELECTED)); // untouched
}

#[test]
fn a_claimed_cell_never_changes() {
    let mut board = Board::new();
    let cell = board.open_cell();
    assert!(board.claim(cell, 4));
    assert!(!board.claim(cell, 5));
    let mut stack = SelectStack::new();
    push_select_waiter(SelectWaiter::new(6, cell, T), &mut stack);
    assert!(!wake_select_one(&mut stack, &mut board));
    push_select_waiter(SelectWaiter::new(6, cell, T), &mut stack);
    wake_select_all(&mut stack, &mut board);
    assert_eq!(board.load(cell), Some(4));
    // Waking all unparks regardless of the claim.
    assert_eq!(board.take_unparked(), vec![T]);
    board.close_cell(cell);
    assert_eq!(board.load(cell), None);
    assert!(!board.claim(cell, 1));
}

#[test]
fn wake_one_takes_the_topmost_arm_and_drops_the_rest() {
    let mut board = Board::new();
    let mut stack = SelectStack::new();
    let low = board.open_cell();
    let top = board.open_cell();
    push_select_waiter(SelectWaiter::new(1, low, 10), &mut stack);
    push_select_waiter(SelectWaiter::new(2, top, 20), &mut stack);
    assert!(wake_select_one(&mut stack, &mut board));
    assert_eq!(board.load(top), Some(2));
    assert_eq!(board.load(low), Some(UNSELECTED));
    assert_eq!(board.take_unparked(), vec![20]);
    assert!(!wake_select_one(&mut stack, &mut board));
}

#[test]
fn wake_one_receiver_skips_claimed_waiters() {
    let mut board = Board::new();
    let mut list = new_recv_waiter_list();
    let a = board.open_cell();
    let b = board.open_cell();
    let _ga = RecvWaiterGuard::register(RecvWaiter::new(0, a, 10), &mut list);
    let _gb = RecvWaiterGuard::register(RecvWaiter::new(1, b, 20), &mut list);
    assert!(wake_one_recv_waiter(&list, &mut board));
    assert!(wake_one_recv_waiter(&list, &mut board));
    assert!(!wake_one_recv_waiter(&list, &mut board));
    assert_eq!(board.take_unparked(), vec![10, 20]);
    assert_eq!((board.load(a), board.load(b)), (Some(0), Some(1)));
    wake_all_unselected_recv_waiters(&list, &mut board);
    assert_eq!(board.take_unparked(), vec![]);
    wake_all_recv_waiters(&list, &mut board);
    assert_eq!(board.take_unparked(), vec![10, 20]);
}

#[test]
fn plain_waiters_stay_wakeable() {
    let mut board = Board::new();
    let mut list = new_recv_waiter_list();
    let guard = register_plain_recv_waiter(&mut list, &mut board, T);
    assert!(wake_one_recv_waiter(&list, &mut board));
    assert!(wake_one_recv_waiter(&list, &mut board));
    wake_all_unselected_recv_waiters(&list, &mut board);
    assert_eq!(board.take_unparked(), vec![T, T, T]);
    assert_eq!(board.load(guard.marker()), Some(UNSELECTED));
}

#[test]
fn releasing_undoes_registering() {
    let mut board = Board::new();
    let mut list = new_recv_waiter_list();
    let other = register_plain_recv_waiter(&mut list, &mut board, 1);
    let guard = register_plain_recv_waiter(&mut list, &mut board, 2);
    let cell = guard.marker();
    guard.release(&mut list, &mut board);
    assert_eq!(board.load(cell), None);
    assert!(!list.is_empty());
    wake_all_recv_waiters(&list, &mut board);
    assert_eq!(board.take_unparked(), vec![1]);
    other.release(&mut list, &mut board);
    assert!(list.is_empty());

    // Also from the middle of the list.
    let guards: Vec<RecvWaiterGuard> =
        (1..4).map(|thread| register_plain_recv_waiter(&mut list, &mut board, thread)).collect();
    let mut guards = guards.into_iter();
    let _first = guards.next().unwrap();
    guards.next().unwrap().release(&mut list, &mut board);
    wake_all_recv_waiters(&list, &mut board);
    assert_eq!(board.take_unparked(), vec![1, 3]);
}

#[test]
fn sweeps_begin_at_consecutive_arms() {
    let mut board = Board::new();
    let starts: Vec<usize> = (0..7).map(|_| board.next_start(3)).collect();
    assert_eq!(starts, vec![0, 1, 2, 0, 1, 2, 0]);
}
