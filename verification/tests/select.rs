use selectables::ports::Step;
use selectables::select::{Select, SelectStep};
use selectables::waiter::Board;
use selectables::worlds::{Bank, Nth, Side};
use selectables::{bounded_mpmc, bounded_mpsc, unbounded_mpmc, unbounded_mpsc, watch};
use selectables::{ArmOpTrait, SelectableSender};

const ME: u64 = 1;
const MS: u64 = 1_000_000;

fn done<R, W>(step: Step<R, W>) -> R {
    match step {
        Step::Done(r) => r,
        Step::Wait(_) => panic!("has to wait"),
    }
}

/// The arm selected when nothing else happens; `None` and the time spent if the time is up.
fn run_timeout<A: ArmOpTrait, B: ArmOpTrait<World = A::World>>(
    sel: &mut Select<A, B>,
    world: &mut A::World,
    board: &mut Board,
    timeout: u64,
) -> (Option<usize>, u64) {
    let mut clock = 0;
    let mut step = sel.select_timeout(world, board, ME, clock, timeout);
    loop {
        step = match step {
            SelectStep::Selected(op) => return (Some(op.index), clock),
            SelectStep::TimedOut => return (None, clock),
            SelectStep::Registered(call) => sel.recheck(world, board, call),
            SelectStep::Park(call) => {
                assert_eq!(board.take_unparked(), vec![]);
                clock += call.park_timeout(clock).expect("there is a deadline");
                sel.resume(world, board, clock, call)
            }
        };
    }
}

/// The arm selected at once.
fn run<A: ArmOpTrait, B: ArmOpTrait<World = A::World>>(
    sel: &mut Select<A, B>,
    world: &mut A::World,
    board: &mut Board,
) -> usize {
    match sel.select(world, board, ME) {
        SelectStep::Selected(op) => op.index,
        _ => panic!("no arm is ready"),
    }
}

#[test]
fn watch_with_instant_default() {
    let mut board = Board::new();
    let (mut chan, _tx, rx) = watch::channel::<&str>();
    let mut sel: Select<watch::Receiver<&str>, watch::Sender<&str>> = Select::new();
    let arm = rx.clone(&mut chan);
    sel.recv(arm);
    assert!(sel.try_select(&mut chan, &mut board).is_none());
}

#[test]
fn watch_with_timeout_default() {
    let mut board = Board::new();
    let (mut chan, _tx, rx) = watch::channel::<&str>();
    let mut sel: Select<watch::Receiver<&str>, watch::Sender<&str>> = Select::new();
    let arm = rx.clone(&mut chan);
    sel.recv(arm);
    let (selected, elapsed) = run_timeout(&mut sel, &mut chan, &mut board, 20 * MS);
    assert_eq!(selected, None);
    assert!(elapsed >= 20 * MS);
}

#[test]
fn mixed_recv_and_watch_blocking_select() {
    let mut board = Board::new();
    let (mut mchan, tx_msg, rx_msg) = unbounded_mpmc::channel::<i32>();
    let (mut wchan, tx_watch, watch_rx) = watch::channel::<&str>();

    type Arm = Side<watch::Receiver<&'static str>, unbounded_mpmc::Receiver<i32>>;
    let mut sel: Select<Arm, Arm> = Select::new();
    let w = sel.recv(Side::First(watch_rx.clone(&mut wchan)));
    sel.recv(Side::Second(rx_msg.clone(&mut mchan)));
    let mut world = (wchan, mchan);
    let call = match sel.select(&mut world, &mut board, ME) {
        SelectStep::Registered(call) => call,
        _ => panic!("nothing is ready yet"),
    };
    tx_watch.send(&mut world.0, &mut board, "ready").unwrap();
    tx_msg.send(&mut world.1, &mut board, 42).unwrap();
    assert_eq!(board.take_unparked(), vec![ME]);
    match sel.resume(&mut world, &mut board, 0, call) {
        SelectStep::Selected(op) => assert_eq!(op.index, w),
        _ => panic!("the watch arm was woken"),
    }
    let mut watch_rx = watch_rx;
    assert_eq!(done(watch_rx.complete_recv(&mut world.0, &mut board, ME)), Ok(()));
}

// ── send arm tests ────────────────────────────────────────────────────

/// Unbounded sender is always ready; send arm fires immediately.
#[test]
fn test_send_arm_unbounded_mpmc() {
    let mut board = Board::new();
    let (mut chan, tx, rx) = unbounded_mpmc::channel::<i32>();
    let mut sel: Select<unbounded_mpmc::Receiver<i32>, unbounded_mpmc::Sender<i32>> = Select::new();
    sel.send(tx.clone(&mut chan));
    assert_eq!(run(&mut sel, &mut chan, &mut board), 0);
    assert!(done(tx.complete_send(&mut chan, &mut board, ME, 99)).is_ok());
    assert_eq!(rx.try_recv(&mut chan).unwrap(), 99);
}

/// Unbounded mpsc sender is always ready.
#[test]
fn test_send_arm_unbounded_mpsc() {
    let mut board = Board::new();
    let (mut chan, tx, rx) = unbounded_mpsc::channel::<i32>();
    let mut sel: Select<unbounded_mpsc::Receiver<i32>, unbounded_mpsc::Sender<i32>> = Select::new();
    sel.send(tx.clone(&mut chan));
    assert_eq!(run(&mut sel, &mut chan, &mut board), 0);
    assert!(done(tx.complete_send(&mut chan, &mut board, ME, 77)).is_ok());
    assert_eq!(rx.try_recv(&mut chan).unwrap(), 77);
}

/// Bounded sender is ready when buffer has space; send arm fires.
#[test]
fn test_send_arm_bounded_mpmc() {
    let mut board = Board::new();
    let (mut chan, tx, rx) = bounded_mpmc::channel::<i32>(4);
    let mut sel: Select<bounded_mpmc::Receiver<i32>, bounded_mpmc::Sender<i32>> = Select::new();
    sel.send(tx.clone(&mut chan));
    assert_eq!(run(&mut sel, &mut chan, &mut board), 0);
    assert!(done(tx.complete_send(&mut chan, &mut board, ME, 42)).is_ok());
    assert_eq!(rx.try_recv(&mut chan, &mut board).unwrap(), 42);
}

/// Watch sender is always ready (overwrite semantics).
#[test]
fn test_send_arm_watch() {
    let mut board = Board::new();
    let (mut chan, tx, rx) = watch::channel::<i32>();
    let mut sel: Select<watch::Receiver<i32>, watch::Sender<i32>> = Select::new();
    sel.send(tx.clone(&mut chan));
    assert_eq!(run(&mut sel, &mut chan, &mut board), 0);
    assert!(done(tx.complete_send(&mut chan, &mut board, ME, 10)).is_ok());
    // borrow_arc() returns the current snapshot without blocking
    let snapshot = rx.borrow_arc(&chan);
    assert!(snapshot.is_some());
    assert_eq!(*snapshot.unwrap(), 10);
}

/// Full bounded channel: send arm waits until a receiver pops.
#[test]
fn test_send_arm_bounded_mpmc_blocks_when_full() {
    let mut board = Board::new();
    let (mut chan, tx, rx) = bounded_mpmc::channel::<i32>(1);
    // Fill it.
    tx.send(&mut chan, &mut board, 1).unwrap();

    let rx2 = rx.clone(&mut chan);
    let mut sel: Select<bounded_mpmc::Receiver<i32>, bounded_mpmc::Sender<i32>> = Select::new();
    sel.send(tx.clone(&mut chan));
    let call = match sel.select(&mut chan, &mut board, ME) {
        SelectStep::Registered(call) => call,
        _ => panic!("the buffer is full"),
    };
    let _ = rx2.try_recv(&mut chan, &mut board); // make space
    match sel.recheck(&mut chan, &mut board, call) {
        SelectStep::Selected(op) => assert_eq!(op.index, 0),
        _ => panic!("there is space"),
    }
    assert!(done(tx.complete_send(&mut chan, &mut board, ME, 2)).is_ok());
}

/// Drop all receivers: the send arm fires and reports the disconnection.
#[test]
fn test_send_arm_disconnect_bounded() {
    let mut board = Board::new();
    let (mut chan, tx, rx) = bounded_mpmc::channel::<i32>(4);
    rx.close(&mut chan, &mut board);
    let mut sel: Select<bounded_mpmc::Receiver<i32>, bounded_mpmc::Sender<i32>> = Select::new();
    sel.send(tx.clone(&mut chan));
    assert_eq!(run(&mut sel, &mut chan, &mut board), 0);
    assert!(done(tx.complete_send(&mut chan, &mut board, ME, 5)).is_err());
}

/// Drop all receivers on unbounded: the send arm fires and reports the disconnection.
#[test]
fn test_send_arm_disconnect_unbounded() {
    let mut board = Board::new();
    let (mut chan, tx, rx) = unbounded_mpmc::channel::<i32>();
    rx.close(&mut chan);
    let mut sel: Select<unbounded_mpmc::Receiver<i32>, unbounded_mpmc::Sender<i32>> = Select::new();
    sel.send(tx.clone(&mut chan));
    assert_eq!(run(&mut sel, &mut chan, &mut board), 0);
    assert!(done(tx.complete_send(&mut chan, &mut board, ME, 5)).is_err());
}

type UnboundedBank = Bank<unbounded_mpmc::Chan<i32>>;
type UnboundedSelect =
    Select<Nth<unbounded_mpmc::Receiver<i32>>, Nth<unbounded_mpmc::Sender<i32>>>;

/// Mixed recv + send: correct arm fires.
#[test]
fn test_mixed_recv_send_select() {
    let mut board = Board::new();
    let (mut msg, tx_msg, rx_msg) = unbounded_mpmc::channel::<i32>();
    let (mut out, tx_out, _rx_out) = unbounded_mpmc::channel::<i32>();

    // Put a message in rx_msg; both recv and send are ready — either arm can
    // fire. We just assert one of them fired without panic.
    tx_msg.send(&mut msg, &mut board, 7).unwrap();

    let mut sel: UnboundedSelect = Select::new();
    let r = sel.recv(Nth { index: 0, op: rx_msg.clone(&mut msg) });
    let s = sel.send(Nth { index: 1, op: tx_out.clone(&mut out) });
    let mut world: UnboundedBank = Bank { chans: vec![msg, out] };
    let index = run(&mut sel, &mut world, &mut board);
    if index == r {
        let msg = done(rx_msg.complete_recv(&mut world.chans[0], &mut board, ME));
        assert_eq!(msg.unwrap(), 7);
    } else {
        assert_eq!(index, s);
        let res = done(tx_out.complete_send(&mut world.chans[1], &mut board, ME, 99));
        assert!(res.is_ok());
    }
}

/// Default arm fires when no send is ready (bounded channel full, no recv).
#[test]
fn test_send_arm_default_when_not_ready() {
    let mut board = Board::new();
    let (mut chan, tx, _rx) = bounded_mpsc::channel::<i32>(1);
    tx.send(&mut chan, &mut board, 1).unwrap(); // fill it

    let mut sel: Select<bounded_mpsc::Receiver<i32>, bounded_mpsc::Sender<i32>> = Select::new();
    let arm = tx.clone(&mut chan);
    sel.send(arm);
    assert!(sel.try_select(&mut chan, &mut board).is_none());
}

/// Timeout default fires when send never becomes ready within deadline.
#[test]
fn test_send_arm_timeout_default() {
    let mut board = Board::new();
    let (mut chan, tx, _rx) = bounded_mpsc::channel::<i32>(1);
    tx.send(&mut chan, &mut board, 1).unwrap(); // fill it

    let mut sel: Select<bounded_mpsc::Receiver<i32>, bounded_mpsc::Sender<i32>> = Select::new();
    let arm = tx.clone(&mut chan);
    sel.send(arm);
    let (selected, elapsed) = run_timeout(&mut sel, &mut chan, &mut board, 30 * MS);
    assert_eq!(selected, None);
    assert!(elapsed >= 30 * MS);
}

// ── structural / multi-arm tests ──────────────────────────────────────

/// Three recv arms: only the ready one fires.
#[test]
fn three_arm_select_fires_only_ready_arm() {
    let mut board = Board::new();
    let (mut c1, tx1, rx1) = unbounded_mpmc::channel::<i32>();
    let (mut c2, _tx2, rx2) = unbounded_mpmc::channel::<i32>();
    let (mut c3, _tx3, rx3) = unbounded_mpmc::channel::<i32>();

    tx1.send(&mut c1, &mut board, 42).unwrap();

    let mut sel: UnboundedSelect = Select::new();
    let i1 = sel.recv(Nth { index: 0, op: rx1.clone(&mut c1) });
    sel.recv(Nth { index: 1, op: rx2.clone(&mut c2) });
    sel.recv(Nth { index: 2, op: rx3.clone(&mut c3) });
    let mut world: UnboundedBank = Bank { chans: vec![c1, c2, c3] };
    assert_eq!(run(&mut sel, &mut world, &mut board), i1);
    let msg = done(rx1.complete_recv(&mut world.chans[0], &mut board, ME));
    assert_eq!(msg.unwrap(), 42);
}

/// Fairness: with two always-ready recv channels, both arms should fire
/// in roughly equal proportions over many iterations.
#[test]
fn fairness_distributes_roughly_evenly() {
    const ITERS: usize = 200;
    let mut board = Board::new();
    let (mut c1, tx1, rx1) = unbounded_mpmc::channel::<()>();
    let (mut c2, tx2, rx2) = unbounded_mpmc::channel::<()>();

    for _ in 0..ITERS {
        tx1.send(&mut c1, &mut board, ()).unwrap();
        tx2.send(&mut c2, &mut board, ()).unwrap();
    }

    let mut world = Bank { chans: vec![c1, c2] };
    let mut count = [0usize; 2];
    for _ in 0..ITERS {
        let mut sel: Select<Nth<unbounded_mpmc::Receiver<()>>, Nth<unbounded_mpmc::Sender<()>>> =
            Select::new();
        let arm1 = rx1.clone(&mut world.chans[0]);
        let arm2 = rx2.clone(&mut world.chans[1]);
        sel.recv(Nth { index: 0, op: arm1 });
        sel.recv(Nth { index: 1, op: arm2 });
        let index = run(&mut sel, &mut world, &mut board);
        let rx = if index == 0 { &rx1 } else { &rx2 };
        done(rx.complete_recv(&mut world.chans[index], &mut board, ME)).unwrap();
        count[index] += 1;
    }
    // Each arm should fire at least 20% of the time (not strictly round-robin,
    // but should not be 100/0).
    assert!(count[0] >= ITERS / 5, "arm 0 fired only {} times", count[0]);
    assert!(count[1] >= ITERS / 5, "arm 1 fired only {} times", count[1]);
}

/// A blocking select that eventually fires when a message arrives on one arm.
#[test]
fn blocking_select_waits_for_message() {
    let mut board = Board::new();
    let (mut chan, tx, rx) = unbounded_mpmc::channel::<i32>();
    let (mut idle, _idle_tx, idle_rx) = bounded_mpmc::channel::<i32>(1); // alive but never sends

    type Arm = Side<unbounded_mpmc::Receiver<i32>, bounded_mpmc::Receiver<i32>>;
    let mut sel: Select<Arm, Arm> = Select::new();
    let i = sel.recv(Side::First(rx.clone(&mut chan)));
    sel.recv(Side::Second(idle_rx.clone(&mut idle)));
    let mut world = (chan, idle);
    let call = match sel.select(&mut world, &mut board, ME) {
        SelectStep::Registered(call) => call,
        _ => panic!("nothing is ready yet"),
    };
    let call = match sel.recheck(&mut world, &mut board, call) {
        SelectStep::Park(call) => call,
        _ => panic!("nothing is ready yet"),
    };
    assert_eq!(call.park_timeout(5), None);
    tx.send(&mut world.0, &mut board, 123).unwrap();
    assert_eq!(board.take_unparked(), vec![ME]);
    match sel.resume(&mut world, &mut board, 0, call) {
        SelectStep::Selected(op) => assert_eq!(op.index, i),
        _ => panic!("a message is there"),
    }
    let msg = done(rx.complete_recv(&mut world.0, &mut board, ME));
    assert_eq!(msg.unwrap(), 123);
}

type MixedRecv = Side<unbounded_mpmc::Receiver<i32>, bounded_mpmc::Receiver<i32>>;
type MixedSend = Side<unbounded_mpmc::Sender<i32>, bounded_mpmc::Sender<i32>>;

/// Send + recv in the same select: both are ready, either can fire.
#[test]
fn recv_arm_wins_over_disconnected_send_arm() {
    let mut board = Board::new();
    let (mut msg, tx_msg, rx_msg) = unbounded_mpmc::channel::<i32>();
    let (mut out, tx_out, _rx_out) = bounded_mpmc::channel::<i32>(4);

    tx_msg.send(&mut msg, &mut board, 7).unwrap();
    let mut sel: Select<MixedRecv, MixedSend> = Select::new();
    let r = sel.recv(Side::First(rx_msg.clone(&mut msg)));
    let s = sel.send(Side::Second(tx_out.clone(&mut out)));
    let mut world = (msg, out);
    let index = run(&mut sel, &mut world, &mut board);
    if index == r {
        assert_eq!(done(rx_msg.complete_recv(&mut world.0, &mut board, ME)), Ok(7));
    } else {
        assert_eq!(index, s);
        done(tx_out.complete_send(&mut world.1, &mut board, ME, 99)).unwrap();
        assert_eq!(rx_msg.try_recv(&mut world.0), Ok(7));
    }
}

/// A select with a time limit returns at the deadline.
#[test]
fn timeout_select_returns_within_deadline() {
    let mut board = Board::new();
    let (mut chan, _idle_tx, idle_rx) = bounded_mpmc::channel::<i32>(1); // alive but never sends
    let mut sel: Select<bounded_mpmc::Receiver<i32>, bounded_mpmc::Sender<i32>> = Select::new();
    sel.recv(idle_rx.clone(&mut chan));
    let (selected, elapsed) = run_timeout(&mut sel, &mut chan, &mut board, 40 * MS);
    assert_eq!(selected, None);
    assert!(elapsed >= 40 * MS);
    assert!(elapsed < 500 * MS);
}

/// Five recv arms on four kinds of channels, without waiting.
#[test]
fn five_recv_arms_with_default() {
    let mut board = Board::new();
    let (mut c1, _tx1, rx1) = unbounded_mpmc::channel::<i32>();
    let (mut c2, _tx2, rx2) = unbounded_mpmc::channel::<i32>();
    let (mut c3, _tx3, rx3) = bounded_mpmc::channel::<i32>(4);
    let (mut c4, _tx4, rx4) = bounded_mpsc::channel::<i32>(4);
    let (mut c5, tx5, rx5) = unbounded_mpsc::channel::<i32>();

    tx5.send(&mut c5, &mut board, 55).unwrap();

    type Mpmc = Side<Nth<unbounded_mpmc::Receiver<i32>>, bounded_mpmc::Receiver<i32>>;
    type Mpsc = Side<bounded_mpsc::Receiver<i32>, unbounded_mpsc::Receiver<i32>>;
    let mut sel: Select<Side<Mpmc, Mpsc>, Side<Mpmc, Mpsc>> = Select::new();
    sel.recv(Side::First(Side::First(Nth { index: 0, op: rx1.clone(&mut c1) })));
    sel.recv(Side::First(Side::First(Nth { index: 1, op: rx2.clone(&mut c2) })));
    sel.recv(Side::First(Side::Second(rx3.clone(&mut c3))));
    sel.recv(Side::Second(Side::First(rx4.clone(&mut c4))));
    let i5 = sel.recv(Side::Second(Side::Second(rx5.clone(&mut c5))));

    let mut world = ((Bank { chans: vec![c1, c2] }, c3), (c4, c5));
    let op = sel.try_select(&mut world, &mut board).expect("rx5 is ready");
    assert_eq!(op.index, i5);
    let msg = done(rx5.complete_recv(&mut (world.1).1, &mut board, ME));
    assert_eq!(msg.unwrap(), 55);
}

/// Mixed recv + send in a blocking select.
#[test]
fn mixed_recv_send_blocking_many_arms() {
    let mut board = Board::new();
    let (mut send, tx_send, rx_send) = bounded_mpmc::channel::<i32>(4);
    let (mut recv, tx_recv, rx_recv) = unbounded_mpmc::channel::<i32>();

    // Make recv arm ready; send arm also ready (space in buffer).
    tx_recv.send(&mut recv, &mut board, 99).unwrap();

    let mut sel: Select<MixedRecv, MixedSend> = Select::new();
    let s = sel.send(Side::Second(tx_send.clone(&mut send)));
    let r = sel.recv(Side::First(rx_recv.clone(&mut recv)));
    let mut world = (recv, send);
    let index = run(&mut sel, &mut world, &mut board);
    if index == s {
        let res = done(tx_send.complete_send(&mut world.1, &mut board, ME, 2));
        assert!(res.is_ok());
        // The send completed; value should be in the channel.
        assert_eq!(rx_send.try_recv(&mut world.1, &mut board).unwrap(), 2);
    } else {
        assert_eq!(index, r);
        let msg = done(rx_recv.complete_recv(&mut world.0, &mut board, ME));
        assert_eq!(msg.unwrap(), 99);
    }
}

#[test]
fn select_takes_turns_among_ready_arms() {
    let mut board = Board::new();
    let (mut chan, tx, rx) = unbounded_mpmc::channel::<i32>();
    tx.send(&mut chan, &mut board, 1).unwrap();
    let mut sel: Select<unbounded_mpmc::Receiver<i32>, unbounded_mpmc::Sender<i32>> = Select::new();
    for _ in 0..3 {
        sel.recv(rx.clone(&mut chan));
    }
    let order: Vec<usize> = (0..6).map(|_| run(&mut sel, &mut chan, &mut board)).collect();
    assert_eq!(order, vec![0, 1, 2, 0, 1, 2]);
}

#[test]
fn select_leaves_no_waiter_behind() {
    let mut board = Board::new();
    let (c1, tx1, rx1) = unbounded_mpmc::channel::<i32>();
    let (c2, tx2, rx2) = unbounded_mpmc::channel::<i32>();
    let mut sel: UnboundedSelect = Select::new();
    sel.recv(Nth { index: 0, op: rx1 });
    sel.recv(Nth { index: 1, op: rx2 });
    let mut world: UnboundedBank = Bank { chans: vec![c1, c2] };
    let (selected, _) = run_timeout(&mut sel, &mut world, &mut board, 10);
    assert_eq!(selected, None);
    // The call is over; neither channel wakes its thread any more.
    tx1.send(&mut world.chans[0], &mut board, 1).unwrap();
    tx2.send(&mut world.chans[1], &mut board, 2).unwrap();
    assert_eq!(board.take_unparked(), vec![]);
}

#[test]
fn select_first_claim_wins() {
    let mut board = Board::new();
    let (c1, tx1, rx1) = unbounded_mpmc::channel::<i32>();
    let (c2, tx2, rx2) = unbounded_mpmc::channel::<i32>();
    let mut sel: UnboundedSelect = Select::new();
    sel.recv(Nth { index: 0, op: rx1 });
    let i2 = sel.recv(Nth { index: 1, op: rx2 });
    let mut world: UnboundedBank = Bank { chans: vec![c1, c2] };
    let call = match sel.select(&mut world, &mut board, ME) {
        SelectStep::Registered(call) => call,
        _ => panic!("nothing is ready yet"),
    };
    tx2.send(&mut world.chans[1], &mut board, 2).unwrap();
    tx1.send(&mut world.chans[0], &mut board, 1).unwrap();
    // The second look finds the first arm ready, but the cell is claimed already.
    match sel.recheck(&mut world, &mut board, call) {
        SelectStep::Selected(op) => assert_eq!(op.index, i2),
        _ => panic!("two messages are there"),
    }
}

#[test]
fn select_starts_over_after_a_stray_wakeup() {
    let mut board = Board::new();
    let (mut chan, tx, rx) = unbounded_mpmc::channel::<i32>();
    let mut sel: Select<unbounded_mpmc::Receiver<i32>, unbounded_mpmc::Sender<i32>> =
        Select::default();
    sel.recv(rx.clone(&mut chan));
    let call = match sel.select_deadline(&mut chan, &mut board, ME, 0, 100) {
        SelectStep::Registered(call) => call,
        _ => panic!("nothing is ready yet"),
    };
    let call = match sel.resume(&mut chan, &mut board, 50, call) {
        SelectStep::Registered(call) => call,
        _ => panic!("nothing is ready yet"),
    };
    assert_eq!(call.park_timeout(60), Some(40));
    assert_eq!(call.park_timeout(160), Some(0));
    tx.send(&mut chan, &mut board, 1).unwrap();
    assert_eq!(board.take_unparked(), vec![ME]);
    assert!(matches!(
        sel.resume(&mut chan, &mut board, 200, call),
        SelectStep::Selected(_)
    ));
    // Without a ready arm a passed deadline ends the selection at once.
    assert_eq!(rx.try_recv(&mut chan), Ok(1));
    assert!(matches!(
        sel.select_deadline(&mut chan, &mut board, ME, 101, 100),
        SelectStep::TimedOut
    ));
}

#[test]
fn other_channels_leave_blocked_receives_alone() {
    let mut board = Board::new();
    let (mut mine, tx, rx) = bounded_mpmc::channel::<i32>(1);
    let guard = match rx.recv(&mut mine, &mut board, 7) {
        Step::Wait(guard) => guard,
        Step::Done(_) => panic!("nothing was sent yet"),
    };
    // Waits, wake-ups and a whole selection elsewhere.
    let (mut other, other_tx, other_rx) = bounded_mpsc::channel::<i32>(1);
    let other_guard = match other_rx.recv(&mut other, &mut board, 8) {
        Step::Wait(guard) => guard,
        Step::Done(_) => panic!("nothing was sent yet"),
    };
    other_tx.send(&mut other, &mut board, 1).unwrap();
    assert_eq!(done(other_rx.resume(&mut other, &mut board, 8, other_guard)), Ok(1));
    let mut sel: Select<bounded_mpsc::Receiver<i32>, bounded_mpsc::Sender<i32>> = Select::new();
    sel.recv(other_rx.clone(&mut other));
    let call = match sel.select(&mut other, &mut board, 9) {
        SelectStep::Registered(call) => call,
        _ => panic!("nothing is ready"),
    };
    other_tx.close(&mut other, &mut board);
    assert!(matches!(
        sel.resume(&mut other, &mut board, 0, call),
        SelectStep::Selected(_)
    ));
    assert_eq!(board.take_unparked(), vec![8, 9]);
    // The blocked receive can be woken as ever.
    tx.send(&mut mine, &mut board, 2).unwrap();
    assert_eq!(board.take_unparked(), vec![7]);
    assert_eq!(done(rx.resume(&mut mine, &mut board, 7, guard)), Ok(2));
}

#[test]
fn selections_on_the_same_channel_leave_blocked_receives_alone() {
    let mut board = Board::new();
    let (mut chan, tx, rx) = bounded_mpmc::channel::<i32>(1);
    let guard = match rx.recv(&mut chan, &mut board, 7) {
        Step::Wait(guard) => guard,
        Step::Done(_) => panic!("nothing was sent yet"),
    };
    let mut sel: Select<bounded_mpmc::Receiver<i32>, bounded_mpmc::Sender<i32>> = Select::new();
    sel.recv(rx.clone(&mut chan));
    let (selected, _) = run_timeout(&mut sel, &mut chan, &mut board, 10);
    assert_eq!(selected, None);
    tx.send(&mut chan, &mut board, 2).unwrap();
    assert_eq!(board.take_unparked(), vec![7]);
    assert_eq!(done(rx.resume(&mut chan, &mut board, 7, guard)), Ok(2));
}

#[test]
fn a_send_selects_the_arm_that_registered_last() {
    let mut board = Board::new();
    let (mut chan, tx, rx) = unbounded_mpmc::channel::<i32>();
    type Sel = Select<unbounded_mpmc::Receiver<i32>, unbounded_mpmc::Sender<i32>>;
    let mut first: Sel = Select::new();
    first.recv(rx.clone(&mut chan));
    let mut last: Sel = Select::new();
    last.recv(rx.clone(&mut chan));
    let (first_call, last_call) = match (
        first.select(&mut chan, &mut board, 1),
        last.select(&mut chan, &mut board, 2),
    ) {
        (SelectStep::Registered(a), SelectStep::Registered(b)) => (a, b),
        _ => panic!("nothing is ready"),
    };
    tx.send(&mut chan, &mut board, 5).unwrap();
    assert_eq!(board.take_unparked(), vec![2]);
    assert!(matches!(
        last.resume(&mut chan, &mut board, 0, last_call),
        SelectStep::Selected(_)
    ));
    assert_eq!(done(rx.complete_recv(&mut chan, &mut board, 2)), Ok(5));
    // The other one finds nothing and starts over.
    assert!(matches!(
        first.resume(&mut chan, &mut board, 0, first_call),
        SelectStep::Registered(_)
    ));
}

#[test]
fn a_parked_select_keeps_its_waiters_until_an_arm_is_ready() {
    let mut board = Board::new();
    let (mut chan, tx, rx) = bounded_mpmc::channel::<i32>(1);
    tx.send(&mut chan, &mut board, 0).unwrap();
    let mut sel: Select<bounded_mpmc::Receiver<i32>, bounded_mpmc::Sender<i32>> = Select::new();
    let arm = tx.clone(&mut chan);
    let s = sel.send(arm);
    let call = match sel.select(&mut chan, &mut board, ME) {
        SelectStep::Registered(call) => call,
        _ => panic!("the buffer is full"),
    };
    // Steps that do not make the arm ready: a refused send, handles coming and going.
    assert!(tx.send(&mut chan, &mut board, 1).is_err());
    let rx2 = rx.clone(&mut chan);
    rx2.close(&mut chan, &mut board);
    let tx2 = tx.clone(&mut chan);
    tx2.close(&mut chan, &mut board);
    assert_eq!(board.take_unparked(), vec![]);
    let call = match sel.recheck(&mut chan, &mut board, call) {
        SelectStep::Park(call) => call,
        _ => panic!("the buffer is full"),
    };
    // The first step that does claims the cell and wakes the thread.
    assert_eq!(rx.try_recv(&mut chan, &mut board), Ok(0));
    assert_eq!(board.take_unparked(), vec![ME]);
    match sel.resume(&mut chan, &mut board, 0, call) {
        SelectStep::Selected(op) => assert_eq!(op.index, s),
        _ => panic!("there is room"),
    }
}
