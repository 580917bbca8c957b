use selectables::bounded_broadcast::{channel, Chan, Receiver};
use selectables::ports::Step;
use selectables::select::{Select, SelectStep};
use selectables::unbounded_mpmc;
use selectables::waiter::Board;
use selectables::worlds::Side;
use selectables::{ArmOpTrait, RecvError, SelectableReceiver, SendError, TryRecvError};

const ME: u64 = 1;

fn done<R, W>(step: Step<R, W>) -> R {
    match step {
        Step::Done(r) => r,
        Step::Wait(_) => panic!("has to wait"),
    }
}

fn wait<R, W>(step: Step<R, W>) -> W {
    match step {
        Step::Done(_) => panic!("does not wait"),
        Step::Wait(w) => w,
    }
}

fn recv<T: Clone>(
    rx: &mut Receiver<T>,
    chan: &mut Chan<T>,
    board: &mut Board,
) -> Result<T, RecvError> {
    done(rx.recv(chan, board, ME))
}

#[test]
fn broadcast_reaches_multiple_receivers() {
    let mut board = Board::new();
    let (mut chan, tx, mut rx1) = channel::<i32>(8);
    let mut rx2 = rx1.clone(&mut chan);

    tx.send(&mut chan, &mut board, 1).unwrap();
    tx.send(&mut chan, &mut board, 2).unwrap();

    assert_eq!(recv(&mut rx1, &mut chan, &mut board), Ok(1));
    assert_eq!(recv(&mut rx1, &mut chan, &mut board), Ok(2));
    assert_eq!(recv(&mut rx2, &mut chan, &mut board), Ok(1));
    assert_eq!(recv(&mut rx2, &mut chan, &mut board), Ok(2));
}

#[test]
fn lagged_receiver_reports_skipped() {
    let mut board = Board::new();
    let (mut chan, tx, mut rx) = channel::<i32>(2);

    tx.send(&mut chan, &mut board, 10).unwrap();
    tx.send(&mut chan, &mut board, 20).unwrap();
    tx.send(&mut chan, &mut board, 30).unwrap();

    assert_eq!(rx.try_recv(&chan), Err(TryRecvError::Lagged { skipped: 1 }));
    assert_eq!(recv(&mut rx, &mut chan, &mut board), Ok(20));
    assert_eq!(recv(&mut rx, &mut chan, &mut board), Ok(30));
}

#[test]
fn bounded_broadcast_disconnect_after_drain() {
    let mut board = Board::new();
    let (mut chan, tx, mut rx) = channel::<i32>(4);
    tx.send(&mut chan, &mut board, 7).unwrap();
    tx.close(&mut chan, &mut board);

    assert_eq!(recv(&mut rx, &mut chan, &mut board), Ok(7));
    assert_eq!(recv(&mut rx, &mut chan, &mut board), Err(RecvError::Disconnected));
}

#[test]
fn select_integration_mixed_arms() {
    let mut board = Board::new();
    let (mut bchan, btx, mut brx) = channel::<&str>(4);
    let (mut chan, _tx, rx) = unbounded_mpmc::channel::<i32>();

    type Arm = Side<Receiver<&'static str>, unbounded_mpmc::Receiver<i32>>;
    let mut sel: Select<Arm, Arm> = Select::new();
    let b = sel.recv(Side::First(brx.clone(&mut bchan)));
    sel.recv(Side::Second(rx.clone(&mut chan)));
    let mut world = (bchan, chan);
    assert!(sel.try_select(&mut world, &mut board).is_none());

    let call = match sel.select_timeout(&mut world, &mut board, ME, 0, 100_000_000) {
        SelectStep::Registered(call) => call,
        _ => panic!("nothing is ready yet"),
    };
    btx.send(&mut world.0, &mut board, "hi").unwrap();
    assert_eq!(board.take_unparked(), vec![ME]);
    match sel.resume(&mut world, &mut board, 10_000_000, call) {
        SelectStep::Selected(op) => assert_eq!(op.index, b),
        _ => panic!("unexpected timeout"),
    }
    assert_eq!(done(brx.complete_recv(&mut world.0, &mut board, ME)), Ok("hi"));
}

#[test]
fn try_recv_empty_when_nothing_sent() {
    let (chan, _tx, mut rx) = channel::<i32>(4);
    assert_eq!(rx.try_recv(&chan), Err(TryRecvError::Empty));
}

#[test]
fn try_recv_disconnected_when_sender_dropped() {
    let mut board = Board::new();
    let (mut chan, tx, mut rx) = channel::<i32>(4);
    tx.close(&mut chan, &mut board);
    assert_eq!(rx.try_recv(&chan), Err(TryRecvError::Disconnected));
}

#[test]
fn multiple_senders_all_broadcast_to_each_receiver() {
    let mut board = Board::new();
    let (mut chan, tx1, mut rx1) = channel::<i32>(16);
    let tx2 = tx1.clone(&mut chan);
    let mut rx2 = rx1.clone(&mut chan);

    tx1.send(&mut chan, &mut board, 10).unwrap();
    tx2.send(&mut chan, &mut board, 20).unwrap();

    // Every receiver sees every message.
    let mut r1: Vec<i32> = vec![
        recv(&mut rx1, &mut chan, &mut board).unwrap(),
        recv(&mut rx1, &mut chan, &mut board).unwrap(),
    ];
    let mut r2: Vec<i32> = vec![
        recv(&mut rx2, &mut chan, &mut board).unwrap(),
        recv(&mut rx2, &mut chan, &mut board).unwrap(),
    ];
    r1.sort();
    r2.sort();
    assert_eq!(r1, vec![10, 20]);
    assert_eq!(r2, vec![10, 20]);
}

#[test]
fn bounded_broadcast_blocking_recv_woken_by_send() {
    let mut board = Board::new();
    let (mut chan, tx, mut rx) = channel::<i32>(4);
    let guard = wait(rx.recv(&mut chan, &mut board, ME));
    let guard = wait(rx.recheck(&mut chan, &mut board, ME, guard));
    tx.send(&mut chan, &mut board, 55).unwrap();
    assert_eq!(board.take_unparked(), vec![ME]);
    assert_eq!(done(rx.resume(&mut chan, &mut board, ME, guard)).unwrap(), 55);
}

#[test]
fn blocking_recv_woken_by_sender_disconnect() {
    let mut board = Board::new();
    let (mut chan, tx, mut rx) = channel::<i32>(4);
    let guard = wait(rx.recv(&mut chan, &mut board, ME));
    tx.close(&mut chan, &mut board);
    assert_eq!(board.take_unparked(), vec![ME]);
    assert_eq!(
        done(rx.recheck(&mut chan, &mut board, ME, guard)),
        Err(RecvError::Disconnected)
    );
}

#[test]
fn capacity_one_causes_lag() {
    let mut board = Board::new();
    let (mut chan, tx, mut rx) = channel::<i32>(1);
    tx.send(&mut chan, &mut board, 1).unwrap();
    tx.send(&mut chan, &mut board, 2).unwrap(); // overwrites; receiver missed seq 0
    assert!(matches!(rx.try_recv(&chan), Err(TryRecvError::Lagged { .. })));
    assert_eq!(recv(&mut rx, &mut chan, &mut board), Ok(2));
}

#[test]
fn receiver_clone_starts_at_write_position() {
    // Cloning a receiver creates a NEW cursor at the current write position.
    // The clone does NOT see messages that were sent before the clone was made.
    let mut board = Board::new();
    let (mut chan, tx, mut rx1) = channel::<i32>(8);
    tx.send(&mut chan, &mut board, 1).unwrap();
    tx.send(&mut chan, &mut board, 2).unwrap();

    // Clone made AFTER two sends; clone starts at position 2.
    let mut rx2 = rx1.clone(&mut chan);

    // Original still sees messages from its cursor (position 0).
    assert_eq!(recv(&mut rx1, &mut chan, &mut board).unwrap(), 1);
    assert_eq!(recv(&mut rx1, &mut chan, &mut board).unwrap(), 2);

    // Both see future messages sent after the clone was created.
    tx.send(&mut chan, &mut board, 3).unwrap();
    assert_eq!(recv(&mut rx1, &mut chan, &mut board).unwrap(), 3);
    assert_eq!(recv(&mut rx2, &mut chan, &mut board).unwrap(), 3);
}

#[test]
fn sender_is_closed_only_after_all_receivers_drop() {
    let (mut chan, tx, rx1) = channel::<i32>(4);
    let rx2 = rx1.clone(&mut chan);
    assert!(!tx.is_closed(&chan));
    rx1.close(&mut chan);
    assert!(!tx.is_closed(&chan)); // rx2 still alive
    rx2.close(&mut chan);
    assert!(tx.is_closed(&chan));
}

#[test]
fn stress_broadcast_many_messages() {
    const MSGS: usize = 1_000;
    let mut board = Board::new();
    let (mut chan, tx, mut rx1) = channel::<usize>(MSGS + 8);
    let mut rx2 = rx1.clone(&mut chan);

    for i in 0..MSGS {
        tx.send(&mut chan, &mut board, i).unwrap();
    }

    for i in 0..MSGS {
        assert_eq!(recv(&mut rx1, &mut chan, &mut board).unwrap(), i);
        assert_eq!(recv(&mut rx2, &mut chan, &mut board).unwrap(), i);
    }
}

#[test]
fn bounded_broadcast_lag_is_reported_once_with_the_missed_count() {
    let mut board = Board::new();
    let (mut chan, tx, mut rx) = channel::<String>(3);
    for i in 0..10 {
        tx.send(&mut chan, &mut board, format!("m{}", i)).unwrap();
    }
    assert_eq!(
        recv(&mut rx, &mut chan, &mut board),
        Err(RecvError::Lagged { skipped: 7 })
    );
    for i in 7..10 {
        assert_eq!(rx.try_recv(&chan), Ok(format!("m{}", i)));
    }
    assert_eq!(rx.try_recv(&chan), Err(TryRecvError::Empty));
    for i in 10..13 {
        tx.send(&mut chan, &mut board, format!("m{}", i)).unwrap();
    }
    // Exactly as many messages as are kept: no lag.
    assert_eq!(rx.try_recv(&chan), Ok("m10".to_string()));
}

#[test]
fn bounded_broadcast_send_without_receivers_returns_the_value() {
    let mut board = Board::new();
    let (mut chan, tx, rx) = channel::<i32>(2);
    rx.close(&mut chan);
    assert_eq!(tx.send(&mut chan, &mut board, 9), Err(SendError(9)));
}

#[test]
fn bounded_broadcast_send_wakes_everybody() {
    let mut board = Board::new();
    let (mut chan, tx, mut rx) = channel::<i32>(2);
    let mut rx2 = rx.clone(&mut chan);
    let mut arm: Select<Receiver<i32>, Receiver<i32>> = Select::new();
    arm.recv(rx.clone(&mut chan));
    let g1 = wait(rx.recv(&mut chan, &mut board, 1));
    let g2 = wait(rx2.recv(&mut chan, &mut board, 2));
    let call = match arm.select(&mut chan, &mut board, 3) {
        SelectStep::Registered(call) => call,
        _ => panic!("nothing was sent yet"),
    };
    tx.send(&mut chan, &mut board, 5).unwrap();
    assert_eq!(board.take_unparked(), vec![1, 2, 3]);
    assert_eq!(done(rx.resume(&mut chan, &mut board, 1, g1)), Ok(5));
    assert_eq!(done(rx2.resume(&mut chan, &mut board, 2, g2)), Ok(5));
    assert!(matches!(
        arm.resume(&mut chan, &mut board, 0, call),
        SelectStep::Selected(_)
    ));
}

#[test]
fn bounded_broadcast_readiness_follows_the_cursor() {
    let mut board = Board::new();
    let (mut chan, tx, mut rx) = channel::<i32>(2);
    assert!(!rx.is_ready(&chan));
    tx.send(&mut chan, &mut board, 1).unwrap();
    assert!(rx.is_ready(&chan));
    assert_eq!(done(rx.complete(&mut chan, &mut board, ME)), Ok(1));
    assert!(!rx.is_ready(&chan));
    let guard = wait(rx.complete(&mut chan, &mut board, ME));
    // A receive whose cell was claimed begins anew, so that a send wakes it.
    assert!(board.claim(guard.marker(), 0));
    let guard = wait(rx.recheck(&mut chan, &mut board, ME, guard));
    tx.send(&mut chan, &mut board, 2).unwrap();
    assert_eq!(board.take_unparked(), vec![ME]);
    assert_eq!(done(rx.recheck(&mut chan, &mut board, ME, guard)), Ok(2));
}

#[test]
fn bounded_broadcast_hands_out_what_makes_room() {
    let mut board = Board::new();
    let (mut chan, tx, mut rx) = channel::<String>(2);
    let mut send = |text: &str| tx.send_replacing(&mut chan, &mut board, text.to_string());
    assert_eq!(send("a"), Ok(None));
    assert_eq!(send("b"), Ok(None));
    assert_eq!(send("c"), Ok(Some("a".to_string())));
    assert_eq!(send("d"), Ok(Some("b".to_string())));
    assert_eq!(rx.try_recv(&chan), Err(TryRecvError::Lagged { skipped: 2 }));
    assert_eq!(rx.try_recv(&chan), Ok("c".to_string()));
    rx.close(&mut chan);
    assert_eq!(
        tx.send_replacing(&mut chan, &mut board, "e".to_string()),
        Err(SendError("e".to_string()))
    );
}
